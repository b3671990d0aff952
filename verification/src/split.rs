//! The split velocity/pressure kernel family, as exact integer arithmetic.
//!
//! Two passes run per step in a fixed order: first the velocity update from
//! the pressure gradient, then the pressure update from the velocity
//! divergence. Solid cells, and velocity components whose face crosses into
//! a solid cell, are forced to zero; out-of-bounds neighbours contribute
//! zero (rigid wall). The coefficient `kappa` stands for `κ·dt/dx` and
//! `rho` for `dt/(ρ·dx)`; the per-step loss factor in (0, 1] is carried as
//! the exact rational `damp_num / damp_den` and applied to the pressure
//! update with rounding toward zero.

use vstd::prelude::*;

use crate::grid::Grid3;
use crate::grid::is_air;
use crate::grid::lemma_idx_bounds;
use crate::grid::lemma_idx_injective;
use crate::stencil::COEF_LIMIT;
use crate::stencil::coef_ok;
use crate::stencil::div_trunc;
use crate::stencil::in_i64;
use crate::stencil::lemma_mul_bounds;
use crate::stencil::loss_ok;
use crate::stencil::raw_at;

verus! {

/// The velocity update along the w axis at one cell:
/// `Vx − κ·dt/dx · (P(w+1,h,d) − P(w,h,d))`, forced to zero when either
/// cell bracketing the face is solid.
pub open spec fn velocity_x_value(
    geo: Grid3<i8>,
    p: Grid3<i64>,
    vx: Grid3<i64>,
    kappa: int,
    x: int,
    y: int,
    z: int,
) -> int {
    if !is_air(geo.cell(x, y, z)) || (geo.in_bounds(x + 1, y, z) && !is_air(geo.cell(x + 1, y, z))) {
        0
    } else {
        vx.cell(x, y, z) - kappa * (raw_at(geo, p, x + 1, y, z) - p.cell(x, y, z))
    }
}

/// The velocity update along the h axis, as `velocity_x_value`.
pub open spec fn velocity_y_value(
    geo: Grid3<i8>,
    p: Grid3<i64>,
    vy: Grid3<i64>,
    kappa: int,
    x: int,
    y: int,
    z: int,
) -> int {
    if !is_air(geo.cell(x, y, z)) || (geo.in_bounds(x, y + 1, z) && !is_air(geo.cell(x, y + 1, z))) {
        0
    } else {
        vy.cell(x, y, z) - kappa * (raw_at(geo, p, x, y + 1, z) - p.cell(x, y, z))
    }
}

/// The velocity update along the d axis, as `velocity_x_value`.
pub open spec fn velocity_z_value(
    geo: Grid3<i8>,
    p: Grid3<i64>,
    vz: Grid3<i64>,
    kappa: int,
    x: int,
    y: int,
    z: int,
) -> int {
    if !is_air(geo.cell(x, y, z)) || (geo.in_bounds(x, y, z + 1) && !is_air(geo.cell(x, y, z + 1))) {
        0
    } else {
        vz.cell(x, y, z) - kappa * (raw_at(geo, p, x, y, z + 1) - p.cell(x, y, z))
    }
}

/// The pressure update at one cell from the divergence of the given
/// velocity grids:
/// `damp · (P − dt/(ρ·dx) · ((Vx−Vx(w−1)) + (Vy−Vy(h−1)) + (Vz−Vz(d−1))))`
/// with the loss factor `damp = damp_num / damp_den` applied by rounding
/// toward zero; zero for a solid cell.
pub open spec fn pressure_value(
    geo: Grid3<i8>,
    p: Grid3<i64>,
    vx: Grid3<i64>,
    vy: Grid3<i64>,
    vz: Grid3<i64>,
    rho: int,
    damp_num: int,
    damp_den: int,
    x: int,
    y: int,
    z: int,
) -> int {
    if !is_air(geo.cell(x, y, z)) {
        0
    } else {
        div_trunc(
            damp_num * (p.cell(x, y, z) - rho * ((vx.cell(x, y, z) - raw_at(geo, vx, x - 1, y, z))
                + (vy.cell(x, y, z) - raw_at(geo, vy, x, y - 1, z))
                + (vz.cell(x, y, z) - raw_at(geo, vz, x, y, z - 1)))),
            damp_den,
        )
    }
}

/// The w-axis velocity update over the whole grid, or `None` exactly when
/// some cell's exact value leaves the sample range.
#[verifier::loop_isolation(false)]
#[verifier::rlimit(60)]
pub fn velocity_pass_x(geo: &Grid3<i8>, p: &Grid3<i64>, vx: &Grid3<i64>, kappa: i64) -> (r: Option<
    Grid3<i64>,
>)
    requires
        geo.wf(),
        p.wf(),
        vx.wf(),
        p.same_shape(*geo),
        vx.same_shape(*geo),
        coef_ok(kappa),
    ensures
        r is Some ==> {
            let g = r->Some_0;
            &&& g.wf()
            &&& g.same_shape(*geo)
            &&& forall|x: int, y: int, z: int|
                geo.in_bounds(x, y, z) ==> {
                    &&& in_i64(velocity_x_value(*geo, *p, *vx, kappa as int, x, y, z))
                    &&& g.cell(x, y, z) == velocity_x_value(*geo, *p, *vx, kappa as int, x, y, z)
                }
        },
        r is None ==> exists|x: int, y: int, z: int|
            geo.in_bounds(x, y, z) && !in_i64(velocity_x_value(*geo, *p, *vx, kappa as int, x, y, z)),
{
    let mut cells: Vec<i64> = Vec::new();
    let mut wi: usize = 0;
    proof {
        assert(0int * (geo.h as int) * (geo.d as int) == 0int) by (nonlinear_arith);
    }
    while wi < geo.w
        invariant
            wi <= geo.w,
            cells@.len() == wi * geo.h * geo.d,
            forall|x: int, y: int, z: int|
                geo.in_bounds(x, y, z) && geo.idx(x, y, z) < cells@.len() ==> {
                    &&& in_i64(velocity_x_value(*geo, *p, *vx, kappa as int, x, y, z))
                    &&& cells@[geo.idx(x, y, z)] == velocity_x_value(*geo, *p, *vx, kappa as int, x, y, z)
                },
        decreases geo.w - wi,
    {
        let mut hi: usize = 0;
        proof {
            assert(wi * geo.h * geo.d == (wi * geo.h + 0) * geo.d) by (nonlinear_arith);
        }
        while hi < geo.h
            invariant
                hi <= geo.h,
                cells@.len() == (wi * geo.h + hi) * geo.d,
                forall|x: int, y: int, z: int|
                    geo.in_bounds(x, y, z) && geo.idx(x, y, z) < cells@.len() ==> {
                        &&& in_i64(velocity_x_value(*geo, *p, *vx, kappa as int, x, y, z))
                        &&& cells@[geo.idx(x, y, z)] == velocity_x_value(*geo, *p, *vx, kappa as int, x, y, z)
                    },
            decreases geo.h - hi,
        {
            let mut di: usize = 0;
            while di < geo.d
                invariant
                    di <= geo.d,
                    cells@.len() == (wi * geo.h + hi) * geo.d + di,
                    forall|x: int, y: int, z: int|
                        geo.in_bounds(x, y, z) && geo.idx(x, y, z) < cells@.len() ==> {
                            &&& in_i64(velocity_x_value(*geo, *p, *vx, kappa as int, x, y, z))
                            &&& cells@[geo.idx(x, y, z)] == velocity_x_value(*geo, *p, *vx, kappa as int, x, y, z)
                        },
                decreases geo.d - di,
            {
                let value: i128 = velocity_cell_x(geo, p, vx, kappa, wi, hi, di);
                if value < i64::MIN as i128 || value > i64::MAX as i128 {
                    return None;
                }
                cells.push(value as i64);
                proof {
                    assert forall|x: int, y: int, z: int|
                        geo.in_bounds(x, y, z) && geo.idx(x, y, z) < cells@.len() implies {
                            &&& in_i64(velocity_x_value(*geo, *p, *vx, kappa as int, x, y, z))
                            &&& cells@[geo.idx(x, y, z)] == velocity_x_value(*geo, *p, *vx, kappa as int, x, y, z)
                        } by {
                        lemma_idx_bounds(geo.w as int, geo.h as int, geo.d as int, x, y, z);
                        if geo.idx(x, y, z) == cells@.len() - 1 {
                            lemma_idx_injective(
                                geo.w as int, geo.h as int, geo.d as int,
                                x, y, z,
                                wi as int, hi as int, di as int,
                            );
                        }
                    }
                }
                di = di + 1;
            }
            proof {
                assert((wi * geo.h + hi) * geo.d + geo.d == (wi * geo.h + (hi + 1)) * geo.d) by (nonlinear_arith);
            }
            hi = hi + 1;
        }
        proof {
            assert((wi * geo.h + geo.h) * geo.d == (wi + 1) * geo.h * geo.d) by (nonlinear_arith);
        }
        wi = wi + 1;
    }
    let g = Grid3 { w: geo.w, h: geo.h, d: geo.d, cells };
    proof {
        assert forall|x: int, y: int, z: int|
            geo.in_bounds(x, y, z) implies {
                &&& in_i64(velocity_x_value(*geo, *p, *vx, kappa as int, x, y, z))
                &&& g.cell(x, y, z) == velocity_x_value(*geo, *p, *vx, kappa as int, x, y, z)
            } by {
            lemma_idx_bounds(geo.w as int, geo.h as int, geo.d as int, x, y, z);
        }
    }
    Some(g)
}

/// The exact w-axis velocity value at one cell, in the wide accumulator.
fn velocity_cell_x(geo: &Grid3<i8>, p: &Grid3<i64>, vx: &Grid3<i64>, kappa: i64, wi: usize, hi: usize, di: usize) -> (value: i128)
    requires
        geo.wf(),
        p.wf(),
        vx.wf(),
        p.same_shape(*geo),
        vx.same_shape(*geo),
        coef_ok(kappa),
        geo.in_bounds(wi as int, hi as int, di as int),
    ensures
        value as int == velocity_x_value(*geo, *p, *vx, kappa as int, wi as int, hi as int, di as int),
{
    if geo.get(wi, hi, di) != 0 {
        return 0;
    }
    if wi + 1 < geo.w && geo.get(wi + 1, hi, di) != 0 {
        return 0;
    }
    let c: i64 = p.get(wi, hi, di);
    let pn: i64 = if wi + 1 < geo.w {
        p.get(wi + 1, hi, di)
    } else {
        0
    };
    proof {
        lemma_mul_bounds(kappa as int, pn - c, COEF_LIMIT as int, 2 * (i64::MAX as int + 1));
    }
    (vx.get(wi, hi, di) as i128) - (kappa as i128) * ((pn as i128) - (c as i128))
}

/// The h-axis velocity update over the whole grid; as `velocity_pass_x`.
#[verifier::loop_isolation(false)]
#[verifier::rlimit(60)]
pub fn velocity_pass_y(geo: &Grid3<i8>, p: &Grid3<i64>, vy: &Grid3<i64>, kappa: i64) -> (r: Option<
    Grid3<i64>,
>)
    requires
        geo.wf(),
        p.wf(),
        vy.wf(),
        p.same_shape(*geo),
        vy.same_shape(*geo),
        coef_ok(kappa),
    ensures
        r is Some ==> {
            let g = r->Some_0;
            &&& g.wf()
            &&& g.same_shape(*geo)
            &&& forall|x: int, y: int, z: int|
                geo.in_bounds(x, y, z) ==> {
                    &&& in_i64(velocity_y_value(*geo, *p, *vy, kappa as int, x, y, z))
                    &&& g.cell(x, y, z) == velocity_y_value(*geo, *p, *vy, kappa as int, x, y, z)
                }
        },
        r is None ==> exists|x: int, y: int, z: int|
            geo.in_bounds(x, y, z) && !in_i64(velocity_y_value(*geo, *p, *vy, kappa as int, x, y, z)),
{
    let mut cells: Vec<i64> = Vec::new();
    let mut wi: usize = 0;
    proof {
        assert(0int * (geo.h as int) * (geo.d as int) == 0int) by (nonlinear_arith);
    }
    while wi < geo.w
        invariant
            wi <= geo.w,
            cells@.len() == wi * geo.h * geo.d,
            forall|x: int, y: int, z: int|
                geo.in_bounds(x, y, z) && geo.idx(x, y, z) < cells@.len() ==> {
                    &&& in_i64(velocity_y_value(*geo, *p, *vy, kappa as int, x, y, z))
                    &&& cells@[geo.idx(x, y, z)] == velocity_y_value(*geo, *p, *vy, kappa as int, x, y, z)
                },
        decreases geo.w - wi,
    {
        let mut hi: usize = 0;
        proof {
            assert(wi * geo.h * geo.d == (wi * geo.h + 0) * geo.d) by (nonlinear_arith);
        }
        while hi < geo.h
            invariant
                hi <= geo.h,
                cells@.len() == (wi * geo.h + hi) * geo.d,
                forall|x: int, y: int, z: int|
                    geo.in_bounds(x, y, z) && geo.idx(x, y, z) < cells@.len() ==> {
                        &&& in_i64(velocity_y_value(*geo, *p, *vy, kappa as int, x, y, z))
                        &&& cells@[geo.idx(x, y, z)] == velocity_y_value(*geo, *p, *vy, kappa as int, x, y, z)
                    },
            decreases geo.h - hi,
        {
            let mut di: usize = 0;
            while di < geo.d
                invariant
                    di <= geo.d,
                    cells@.len() == (wi * geo.h + hi) * geo.d + di,
                    forall|x: int, y: int, z: int|
                        geo.in_bounds(x, y, z) && geo.idx(x, y, z) < cells@.len() ==> {
                            &&& in_i64(velocity_y_value(*geo, *p, *vy, kappa as int, x, y, z))
                            &&& cells@[geo.idx(x, y, z)] == velocity_y_value(*geo, *p, *vy, kappa as int, x, y, z)
                        },
                decreases geo.d - di,
            {
                let value: i128 = velocity_cell_y(geo, p, vy, kappa, wi, hi, di);
                if value < i64::MIN as i128 || value > i64::MAX as i128 {
                    return None;
                }
                cells.push(value as i64);
                proof {
                    assert forall|x: int, y: int, z: int|
                        geo.in_bounds(x, y, z) && geo.idx(x, y, z) < cells@.len() implies {
                            &&& in_i64(velocity_y_value(*geo, *p, *vy, kappa as int, x, y, z))
                            &&& cells@[geo.idx(x, y, z)] == velocity_y_value(*geo, *p, *vy, kappa as int, x, y, z)
                        } by {
                        lemma_idx_bounds(geo.w as int, geo.h as int, geo.d as int, x, y, z);
                        if geo.idx(x, y, z) == cells@.len() - 1 {
                            lemma_idx_injective(
                                geo.w as int, geo.h as int, geo.d as int,
                                x, y, z,
                                wi as int, hi as int, di as int,
                            );
                        }
                    }
                }
                di = di + 1;
            }
            proof {
                assert((wi * geo.h + hi) * geo.d + geo.d == (wi * geo.h + (hi + 1)) * geo.d) by (nonlinear_arith);
            }
            hi = hi + 1;
        }
        proof {
            assert((wi * geo.h + geo.h) * geo.d == (wi + 1) * geo.h * geo.d) by (nonlinear_arith);
        }
        wi = wi + 1;
    }
    let g = Grid3 { w: geo.w, h: geo.h, d: geo.d, cells };
    proof {
        assert forall|x: int, y: int, z: int|
            geo.in_bounds(x, y, z) implies {
                &&& in_i64(velocity_y_value(*geo, *p, *vy, kappa as int, x, y, z))
                &&& g.cell(x, y, z) == velocity_y_value(*geo, *p, *vy, kappa as int, x, y, z)
            } by {
            lemma_idx_bounds(geo.w as int, geo.h as int, geo.d as int, x, y, z);
        }
    }
    Some(g)
}

/// The exact h-axis velocity value at one cell, in the wide accumulator.
fn velocity_cell_y(geo: &Grid3<i8>, p: &Grid3<i64>, vy: &Grid3<i64>, kappa: i64, wi: usize, hi: usize, di: usize) -> (value: i128)
    requires
        geo.wf(),
        p.wf(),
        vy.wf(),
        p.same_shape(*geo),
        vy.same_shape(*geo),
        coef_ok(kappa),
        geo.in_bounds(wi as int, hi as int, di as int),
    ensures
        value as int == velocity_y_value(*geo, *p, *vy, kappa as int, wi as int, hi as int, di as int),
{
    if geo.get(wi, hi, di) != 0 {
        return 0;
    }
    if hi + 1 < geo.h && geo.get(wi, hi + 1, di) != 0 {
        return 0;
    }
    let c: i64 = p.get(wi, hi, di);
    let pn: i64 = if hi + 1 < geo.h {
        p.get(wi, hi + 1, di)
    } else {
        0
    };
    proof {
        lemma_mul_bounds(kappa as int, pn - c, COEF_LIMIT as int, 2 * (i64::MAX as int + 1));
    }
    (vy.get(wi, hi, di) as i128) - (kappa as i128) * ((pn as i128) - (c as i128))
}

/// The d-axis velocity update over the whole grid; as `velocity_pass_x`.
#[verifier::loop_isolation(false)]
#[verifier::rlimit(60)]
pub fn velocity_pass_z(geo: &Grid3<i8>, p: &Grid3<i64>, vz: &Grid3<i64>, kappa: i64) -> (r: Option<
    Grid3<i64>,
>)
    requires
        geo.wf(),
        p.wf(),
        vz.wf(),
        p.same_shape(*geo),
        vz.same_shape(*geo),
        coef_ok(kappa),
    ensures
        r is Some ==> {
            let g = r->Some_0;
            &&& g.wf()
            &&& g.same_shape(*geo)
            &&& forall|x: int, y: int, z: int|
                geo.in_bounds(x, y, z) ==> {
                    &&& in_i64(velocity_z_value(*geo, *p, *vz, kappa as int, x, y, z))
                    &&& g.cell(x, y, z) == velocity_z_value(*geo, *p, *vz, kappa as int, x, y, z)
                }
        },
        r is None ==> exists|x: int, y: int, z: int|
            geo.in_bounds(x, y, z) && !in_i64(velocity_z_value(*geo, *p, *vz, kappa as int, x, y, z)),
{
    let mut cells: Vec<i64> = Vec::new();
    let mut wi: usize = 0;
    proof {
        assert(0int * (geo.h as int) * (geo.d as int) == 0int) by (nonlinear_arith);
    }
    while wi < geo.w
        invariant
            wi <= geo.w,
            cells@.len() == wi * geo.h * geo.d,
            forall|x: int, y: int, z: int|
                geo.in_bounds(x, y, z) && geo.idx(x, y, z) < cells@.len() ==> {
                    &&& in_i64(velocity_z_value(*geo, *p, *vz, kappa as int, x, y, z))
                    &&& cells@[geo.idx(x, y, z)] == velocity_z_value(*geo, *p, *vz, kappa as int, x, y, z)
                },
        decreases geo.w - wi,
    {
        let mut hi: usize = 0;
        proof {
            assert(wi * geo.h * geo.d == (wi * geo.h + 0) * geo.d) by (nonlinear_arith);
        }
        while hi < geo.h
            invariant
                hi <= geo.h,
                cells@.len() == (wi * geo.h + hi) * geo.d,
                forall|x: int, y: int, z: int|
                    geo.in_bounds(x, y, z) && geo.idx(x, y, z) < cells@.len() ==> {
                        &&& in_i64(velocity_z_value(*geo, *p, *vz, kappa as int, x, y, z))
                        &&& cells@[geo.idx(x, y, z)] == velocity_z_value(*geo, *p, *vz, kappa as int, x, y, z)
                    },
            decreases geo.h - hi,
        {
            let mut di: usize = 0;
            while di < geo.d
                invariant
                    di <= geo.d,
                    cells@.len() == (wi * geo.h + hi) * geo.d + di,
                    forall|x: int, y: int, z: int|
                        geo.in_bounds(x, y, z) && geo.idx(x, y, z) < cells@.len() ==> {
                            &&& in_i64(velocity_z_value(*geo, *p, *vz, kappa as int, x, y, z))
                            &&& cells@[geo.idx(x, y, z)] == velocity_z_value(*geo, *p, *vz, kappa as int, x, y, z)
                        },
                decreases geo.d - di,
            {
                let value: i128 = velocity_cell_z(geo, p, vz, kappa, wi, hi, di);
                if value < i64::MIN as i128 || value > i64::MAX as i128 {
                    return None;
                }
                cells.push(value as i64);
                proof {
                    assert forall|x: int, y: int, z: int|
                        geo.in_bounds(x, y, z) && geo.idx(x, y, z) < cells@.len() implies {
                            &&& in_i64(velocity_z_value(*geo, *p, *vz, kappa as int, x, y, z))
                            &&& cells@[geo.idx(x, y, z)] == velocity_z_value(*geo, *p, *vz, kappa as int, x, y, z)
                        } by {
                        lemma_idx_bounds(geo.w as int, geo.h as int, geo.d as int, x, y, z);
                        if geo.idx(x, y, z) == cells@.len() - 1 {
                            lemma_idx_injective(
                                geo.w as int, geo.h as int, geo.d as int,
                                x, y, z,
                                wi as int, hi as int, di as int,
                            );
                        }
                    }
                }
                di = di + 1;
            }
            proof {
                assert((wi * geo.h + hi) * geo.d + geo.d == (wi * geo.h + (hi + 1)) * geo.d) by (nonlinear_arith);
            }
            hi = hi + 1;
        }
        proof {
            assert((wi * geo.h + geo.h) * geo.d == (wi + 1) * geo.h * geo.d) by (nonlinear_arith);
        }
        wi = wi + 1;
    }
    let g = Grid3 { w: geo.w, h: geo.h, d: geo.d, cells };
    proof {
        assert forall|x: int, y: int, z: int|
            geo.in_bounds(x, y, z) implies {
                &&& in_i64(velocity_z_value(*geo, *p, *vz, kappa as int, x, y, z))
                &&& g.cell(x, y, z) == velocity_z_value(*geo, *p, *vz, kappa as int, x, y, z)
            } by {
            lemma_idx_bounds(geo.w as int, geo.h as int, geo.d as int, x, y, z);
        }
    }
    Some(g)
}

/// The exact d-axis velocity value at one cell, in the wide accumulator.
fn velocity_cell_z(geo: &Grid3<i8>, p: &Grid3<i64>, vz: &Grid3<i64>, kappa: i64, wi: usize, hi: usize, di: usize) -> (value: i128)
    requires
        geo.wf(),
        p.wf(),
        vz.wf(),
        p.same_shape(*geo),
        vz.same_shape(*geo),
        coef_ok(kappa),
        geo.in_bounds(wi as int, hi as int, di as int),
    ensures
        value as int == velocity_z_value(*geo, *p, *vz, kappa as int, wi as int, hi as int, di as int),
{
    if geo.get(wi, hi, di) != 0 {
        return 0;
    }
    if di + 1 < geo.d && geo.get(wi, hi, di + 1) != 0 {
        return 0;
    }
    let c: i64 = p.get(wi, hi, di);
    let pn: i64 = if di + 1 < geo.d {
        p.get(wi, hi, di + 1)
    } else {
        0
    };
    proof {
        lemma_mul_bounds(kappa as int, pn - c, COEF_LIMIT as int, 2 * (i64::MAX as int + 1));
    }
    (vz.get(wi, hi, di) as i128) - (kappa as i128) * ((pn as i128) - (c as i128))
}

/// The pressure update over the whole grid from the given velocity grids,
/// or `None` exactly when some cell's exact value leaves the sample range.
#[verifier::loop_isolation(false)]
#[verifier::rlimit(60)]
pub fn pressure_pass(
    geo: &Grid3<i8>,
    p: &Grid3<i64>,
    vx: &Grid3<i64>,
    vy: &Grid3<i64>,
    vz: &Grid3<i64>,
    rho: i64,
    damp_num: i64,
    damp_den: i64,
) -> (r: Option<Grid3<i64>>)
    requires
        geo.wf(),
        p.wf(),
        vx.wf(),
        vy.wf(),
        vz.wf(),
        p.same_shape(*geo),
        vx.same_shape(*geo),
        vy.same_shape(*geo),
        vz.same_shape(*geo),
        coef_ok(rho),
        loss_ok(damp_num, damp_den),
    ensures
        r is Some ==> {
            let g = r->Some_0;
            &&& g.wf()
            &&& g.same_shape(*geo)
            &&& forall|x: int, y: int, z: int|
                geo.in_bounds(x, y, z) ==> {
                    &&& in_i64(pressure_value(*geo, *p, *vx, *vy, *vz, rho as int, damp_num as int, damp_den as int, x, y, z))
                    &&& g.cell(x, y, z) == pressure_value(*geo, *p, *vx, *vy, *vz, rho as int, damp_num as int, damp_den as int, x, y, z)
                }
        },
        r is None ==> exists|x: int, y: int, z: int|
            geo.in_bounds(x, y, z) && !in_i64(pressure_value(*geo, *p, *vx, *vy, *vz, rho as int, damp_num as int, damp_den as int, x, y, z)),
{
    let mut cells: Vec<i64> = Vec::new();
    let mut wi: usize = 0;
    proof {
        assert(0int * (geo.h as int) * (geo.d as int) == 0int) by (nonlinear_arith);
    }
    while wi < geo.w
        invariant
            wi <= geo.w,
            cells@.len() == wi * geo.h * geo.d,
            forall|x: int, y: int, z: int|
                geo.in_bounds(x, y, z) && geo.idx(x, y, z) < cells@.len() ==> {
                    &&& in_i64(pressure_value(*geo, *p, *vx, *vy, *vz, rho as int, damp_num as int, damp_den as int, x, y, z))
                    &&& cells@[geo.idx(x, y, z)] == pressure_value(*geo, *p, *vx, *vy, *vz, rho as int, damp_num as int, damp_den as int, x, y, z)
                },
        decreases geo.w - wi,
    {
        let mut hi: usize = 0;
        proof {
            assert(wi * geo.h * geo.d == (wi * geo.h + 0) * geo.d) by (nonlinear_arith);
        }
        while hi < geo.h
            invariant
                hi <= geo.h,
                cells@.len() == (wi * geo.h + hi) * geo.d,
                forall|x: int, y: int, z: int|
                    geo.in_bounds(x, y, z) && geo.idx(x, y, z) < cells@.len() ==> {
                        &&& in_i64(pressure_value(*geo, *p, *vx, *vy, *vz, rho as int, damp_num as int, damp_den as int, x, y, z))
                        &&& cells@[geo.idx(x, y, z)] == pressure_value(*geo, *p, *vx, *vy, *vz, rho as int, damp_num as int, damp_den as int, x, y, z)
                    },
            decreases geo.h - hi,
        {
            let mut di: usize = 0;
            while di < geo.d
                invariant
                    di <= geo.d,
                    cells@.len() == (wi * geo.h + hi) * geo.d + di,
                    forall|x: int, y: int, z: int|
                        geo.in_bounds(x, y, z) && geo.idx(x, y, z) < cells@.len() ==> {
                            &&& in_i64(pressure_value(*geo, *p, *vx, *vy, *vz, rho as int, damp_num as int, damp_den as int, x, y, z))
                            &&& cells@[geo.idx(x, y, z)] == pressure_value(*geo, *p, *vx, *vy, *vz, rho as int, damp_num as int, damp_den as int, x, y, z)
                        },
                decreases geo.d - di,
            {
                let value: i128 = pressure_cell_value(geo, p, vx, vy, vz, rho, damp_num, damp_den, wi, hi, di);
                if value < i64::MIN as i128 || value > i64::MAX as i128 {
                    return None;
                }
                cells.push(value as i64);
                proof {
                    assert forall|x: int, y: int, z: int|
                        geo.in_bounds(x, y, z) && geo.idx(x, y, z) < cells@.len() implies {
                            &&& in_i64(pressure_value(*geo, *p, *vx, *vy, *vz, rho as int, damp_num as int, damp_den as int, x, y, z))
                            &&& cells@[geo.idx(x, y, z)] == pressure_value(*geo, *p, *vx, *vy, *vz, rho as int, damp_num as int, damp_den as int, x, y, z)
                        } by {
                        lemma_idx_bounds(geo.w as int, geo.h as int, geo.d as int, x, y, z);
                        if geo.idx(x, y, z) == cells@.len() - 1 {
                            lemma_idx_injective(
                                geo.w as int, geo.h as int, geo.d as int,
                                x, y, z,
                                wi as int, hi as int, di as int,
                            );
                        }
                    }
                }
                di = di + 1;
            }
            proof {
                assert((wi * geo.h + hi) * geo.d + geo.d == (wi * geo.h + (hi + 1)) * geo.d) by (nonlinear_arith);
            }
            hi = hi + 1;
        }
        proof {
            assert((wi * geo.h + geo.h) * geo.d == (wi + 1) * geo.h * geo.d) by (nonlinear_arith);
        }
        wi = wi + 1;
    }
    let g = Grid3 { w: geo.w, h: geo.h, d: geo.d, cells };
    proof {
        assert forall|x: int, y: int, z: int|
            geo.in_bounds(x, y, z) implies {
                &&& in_i64(pressure_value(*geo, *p, *vx, *vy, *vz, rho as int, damp_num as int, damp_den as int, x, y, z))
                &&& g.cell(x, y, z) == pressure_value(*geo, *p, *vx, *vy, *vz, rho as int, damp_num as int, damp_den as int, x, y, z)
            } by {
            lemma_idx_bounds(geo.w as int, geo.h as int, geo.d as int, x, y, z);
        }
    }
    Some(g)
}

/// The exact pressure value at one cell, in the wide accumulator.
#[verifier::rlimit(30)]
fn pressure_cell_value(
    geo: &Grid3<i8>,
    p: &Grid3<i64>,
    vx: &Grid3<i64>,
    vy: &Grid3<i64>,
    vz: &Grid3<i64>,
    rho: i64,
    damp_num: i64,
    damp_den: i64,
    wi: usize,
    hi: usize,
    di: usize,
) -> (value: i128)
    requires
        geo.wf(),
        p.wf(),
        vx.wf(),
        vy.wf(),
        vz.wf(),
        p.same_shape(*geo),
        vx.same_shape(*geo),
        vy.same_shape(*geo),
        vz.same_shape(*geo),
        coef_ok(rho),
        loss_ok(damp_num, damp_den),
        geo.in_bounds(wi as int, hi as int, di as int),
    ensures
        value as int == pressure_value(*geo, *p, *vx, *vy, *vz, rho as int, damp_num as int, damp_den as int, wi as int, hi as int, di as int),
{
    if geo.get(wi, hi, di) != 0 {
        return 0;
    }
    let vxm: i64 = if wi > 0 {
        vx.get(wi - 1, hi, di)
    } else {
        0
    };
    let vym: i64 = if hi > 0 {
        vy.get(wi, hi - 1, di)
    } else {
        0
    };
    let vzm: i64 = if di > 0 {
        vz.get(wi, hi, di - 1)
    } else {
        0
    };
    let divergence: i128 = ((vx.get(wi, hi, di) as i128) - (vxm as i128))
        + ((vy.get(wi, hi, di) as i128) - (vym as i128))
        + ((vz.get(wi, hi, di) as i128) - (vzm as i128));
    proof {
        lemma_mul_bounds(rho as int, divergence as int, COEF_LIMIT as int, 6 * (i64::MAX as int + 1));
    }
    let inner: i128 = (p.get(wi, hi, di) as i128) - (rho as i128) * divergence;
    proof {
        lemma_mul_bounds(
            damp_num as int,
            inner as int,
            COEF_LIMIT as int,
            (1 + 6 * COEF_LIMIT as int) * (i64::MAX as int + 1),
        );
    }
    let v: i128 = (damp_num as i128) * inner;
    if v >= 0 {
        ((v as u128) / (damp_den as u128)) as i128
    } else {
        -((((-v) as u128) / (damp_den as u128)) as i128)
    }
}

} // verus!
