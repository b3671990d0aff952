//! Consequences of the step contract that hold for every geometry, every
//! source set and every step: solid cells stay silent, velocities vanish
//! at solid faces, a solid wall is impenetrable, a step's outcome is
//! pinned by its inputs, a mirror-symmetric state steps to a
//! mirror-symmetric state, and the two kernel families agree at interior
//! cells under the leapfrog relation.

use vstd::prelude::*;

use crate::grid::Grid3;
use crate::grid::is_air;
use crate::grid::lemma_contents_from_cells;
use crate::grid::lemma_idx_injective;
use crate::grid::same_contents;
use crate::simulation::steps_to;
use crate::simulation::Scheme;
use crate::simulation::Simulation;
use crate::simulation::injected_total;
use crate::simulation::step_to;
use crate::source::Source;
use crate::stencil::compact_value;
use crate::stencil::corner_sum;
use crate::stencil::edge_sum;
use crate::stencil::face_sum;
use crate::stencil::masked_at;

verus! {

/// A product with a factor equal to zero is zero, whatever the other
/// factor.
proof fn lemma_mul_zero(c: int, e: int)
    by (nonlinear_arith)
    requires
        e == 0,
    ensures
        c * e == 0,
{
}

/// No source among the first `k` sits at (x, y, z), so the first `k`
/// sources inject nothing there.
proof fn lemma_injected_absent(
    geo: Grid3<i8>,
    sources: Seq<Source>,
    amps: Seq<i64>,
    t: int,
    x: int,
    y: int,
    z: int,
    k: nat,
)
    requires
        geo.wf(),
        geo.in_bounds(x, y, z),
        forall|i: int|
            0 <= i < k ==> geo.in_bounds(
                (#[trigger] sources[i]).position[0] as int,
                sources[i].position[1] as int,
                sources[i].position[2] as int,
            ),
        forall|i: int|
            0 <= i < k ==> !((#[trigger] sources[i]).position[0] == x && sources[i].position[1] == y
                && sources[i].position[2] == z),
    ensures
        injected_total(geo, sources, amps, t, geo.idx(x, y, z), k) == 0,
    decreases k,
{
    if k > 0 {
        lemma_injected_absent(geo, sources, amps, t, x, y, z, (k - 1) as nat);
        let s = sources[k as int - 1];
        if s.injects_at(t) && geo.in_bounds(
            s.position[0] as int,
            s.position[1] as int,
            s.position[2] as int,
        ) && geo.idx(s.position[0] as int, s.position[1] as int, s.position[2] as int) == geo.idx(
            x,
            y,
            z,
        ) {
            lemma_idx_injective(
                geo.w as int,
                geo.h as int,
                geo.d as int,
                s.position[0] as int,
                s.position[1] as int,
                s.position[2] as int,
                x,
                y,
                z,
            );
        }
    }
}

/// A step writes the same field values whenever it starts from the same
/// state with the same amplitudes: what a step's contract pins down, it
/// pins down completely.
pub proof fn lemma_step_deterministic(a: Simulation, amps: Seq<i64>, b1: Simulation, b2: Simulation)
    requires
        step_to(a, amps, b1),
        step_to(a, amps, b2),
    ensures
        b1.iteration == b2.iteration,
        b1.pressure_previous == b2.pressure_previous,
        forall|x: int, y: int, z: int|
            a.geometry.in_bounds(x, y, z) ==> b1.pressure.cell(x, y, z) == b2.pressure.cell(x, y, z),
        forall|x: int, y: int, z: int|
            a.geometry.in_bounds(x, y, z) ==> b1.velocity_x.cell(x, y, z) == b2.velocity_x.cell(x, y, z),
        forall|x: int, y: int, z: int|
            a.geometry.in_bounds(x, y, z) ==> b1.velocity_y.cell(x, y, z) == b2.velocity_y.cell(x, y, z),
        forall|x: int, y: int, z: int|
            a.geometry.in_bounds(x, y, z) ==> b1.velocity_z.cell(x, y, z) == b2.velocity_z.cell(x, y, z),
        forall|x: int, y: int, z: int|
            a.geometry.in_bounds(x, y, z) ==> b1.analysis.cell(x, y, z) == b2.analysis.cell(x, y, z),
{
    assert forall|x: int, y: int, z: int|
        a.geometry.in_bounds(x, y, z) implies b1.velocity_x.cell(x, y, z) == b2.velocity_x.cell(
            x,
            y,
            z,
        ) && b1.velocity_y.cell(x, y, z) == b2.velocity_y.cell(x, y, z) && b1.velocity_z.cell(
            x,
            y,
            z,
        ) == b2.velocity_z.cell(x, y, z) && b1.analysis.cell(x, y, z) == b2.analysis.cell(
            x,
            y,
            z,
        ) by {
        if a.analysis_enabled {
            assert(b1.analysis.cell(x, y, z) == a.analysis_next(x, y, z));
            assert(b2.analysis.cell(x, y, z) == a.analysis_next(x, y, z));
        }
        match a.scheme {
            Scheme::Split { .. } => {
                assert(b1.velocity_x.cell(x, y, z) == a.velocity_next_x(x, y, z));
                assert(b2.velocity_x.cell(x, y, z) == a.velocity_next_x(x, y, z));
                assert(b1.velocity_y.cell(x, y, z) == a.velocity_next_y(x, y, z));
                assert(b2.velocity_y.cell(x, y, z) == a.velocity_next_y(x, y, z));
                assert(b1.velocity_z.cell(x, y, z) == a.velocity_next_z(x, y, z));
                assert(b2.velocity_z.cell(x, y, z) == a.velocity_next_z(x, y, z));
            },
            Scheme::Compact { .. } => {},
        }
    }
}

/// With every source in air, the pressure a step writes at every solid
/// cell is exactly zero: the stencils force it and no injection lands
/// there.
pub proof fn lemma_solid_cells_stay_zero(a: Simulation, amps: Seq<i64>, b: Simulation)
    requires
        a.wf(),
        step_to(a, amps, b),
        forall|i: int|
            0 <= i < a.sources@.len() ==> is_air(
                a.geometry.cell(
                    (#[trigger] a.sources@[i]).position[0] as int,
                    a.sources@[i].position[1] as int,
                    a.sources@[i].position[2] as int,
                ),
            ),
    ensures
        forall|x: int, y: int, z: int|
            a.geometry.in_bounds(x, y, z) && !is_air(a.geometry.cell(x, y, z))
                ==> b.pressure.cell(x, y, z) == 0,
{
    assert forall|x: int, y: int, z: int|
        a.geometry.in_bounds(x, y, z) && !is_air(a.geometry.cell(x, y, z))
            implies b.pressure.cell(x, y, z) == 0 by {
        assert(a.stencil_p_value(x, y, z) == 0);
        assert forall|i: int|
            0 <= i < a.sources@.len()
                implies !((#[trigger] a.sources@[i]).position[0] == x
                && a.sources@[i].position[1] == y && a.sources@[i].position[2] == z) by {
            if a.sources@[i].position[0] == x && a.sources@[i].position[1] == y
                && a.sources@[i].position[2] == z {
                assert(is_air(a.geometry.cell(x, y, z)));
            }
        }
        lemma_injected_absent(
            a.geometry,
            a.sources@,
            amps,
            a.time_nanos_of(),
            x,
            y,
            z,
            a.sources@.len() as nat,
        );
    }
}

/// Under the split scheme, a step forces every velocity component to zero
/// wherever either of the two cells bracketing its face is solid.
pub proof fn lemma_velocity_zero_at_solid_faces(a: Simulation, amps: Seq<i64>, b: Simulation)
    requires
        step_to(a, amps, b),
        a.scheme is Split,
    ensures
        forall|x: int, y: int, z: int|
            a.geometry.in_bounds(x, y, z) && (!is_air(a.geometry.cell(x, y, z))
                || (a.geometry.in_bounds(x + 1, y, z) && !is_air(a.geometry.cell(x + 1, y, z))))
                ==> b.velocity_x.cell(x, y, z) == 0,
        forall|x: int, y: int, z: int|
            a.geometry.in_bounds(x, y, z) && (!is_air(a.geometry.cell(x, y, z))
                || (a.geometry.in_bounds(x, y + 1, z) && !is_air(a.geometry.cell(x, y + 1, z))))
                ==> b.velocity_y.cell(x, y, z) == 0,
        forall|x: int, y: int, z: int|
            a.geometry.in_bounds(x, y, z) && (!is_air(a.geometry.cell(x, y, z))
                || (a.geometry.in_bounds(x, y, z + 1) && !is_air(a.geometry.cell(x, y, z + 1))))
                ==> b.velocity_z.cell(x, y, z) == 0,
{
    assert forall|x: int, y: int, z: int|
        a.geometry.in_bounds(x, y, z) && (!is_air(a.geometry.cell(x, y, z))
            || (a.geometry.in_bounds(x + 1, y, z) && !is_air(a.geometry.cell(x + 1, y, z))))
            implies b.velocity_x.cell(x, y, z) == 0 by {
        assert(b.velocity_x.cell(x, y, z) == a.velocity_next_x(x, y, z));
        assert(a.velocity_next_x(x, y, z) == 0);
    }
    assert forall|x: int, y: int, z: int|
        a.geometry.in_bounds(x, y, z) && (!is_air(a.geometry.cell(x, y, z))
            || (a.geometry.in_bounds(x, y + 1, z) && !is_air(a.geometry.cell(x, y + 1, z))))
            implies b.velocity_y.cell(x, y, z) == 0 by {
        assert(b.velocity_y.cell(x, y, z) == a.velocity_next_y(x, y, z));
        assert(a.velocity_next_y(x, y, z) == 0);
    }
    assert forall|x: int, y: int, z: int|
        a.geometry.in_bounds(x, y, z) && (!is_air(a.geometry.cell(x, y, z))
            || (a.geometry.in_bounds(x, y, z + 1) && !is_air(a.geometry.cell(x, y, z + 1))))
            implies b.velocity_z.cell(x, y, z) == 0 by {
        assert(b.velocity_z.cell(x, y, z) == a.velocity_next_z(x, y, z));
        assert(a.velocity_next_z(x, y, z) == 0);
    }
}

/// A one-cell-thick solid wall filling the whole plane at `wall` fully
/// blocks the field: if everything at and beyond the plane is silent and
/// every source sits before it, one step keeps everything at and beyond
/// the plane silent.
pub proof fn lemma_solid_wall_blocks(a: Simulation, amps: Seq<i64>, b: Simulation, wall: int)
    requires
        a.wf(),
        step_to(a, amps, b),
        0 <= wall < a.geometry.w,
        forall|y: int, z: int|
            a.geometry.in_bounds(wall, y, z) ==> !is_air(#[trigger] a.geometry.cell(wall, y, z)),
        forall|x: int, y: int, z: int|
            a.geometry.in_bounds(x, y, z) && x >= wall ==> #[trigger] a.pressure.cell(x, y, z) == 0,
        forall|x: int, y: int, z: int|
            a.geometry.in_bounds(x, y, z) && x >= wall ==> #[trigger] a.pressure_previous.cell(x, y, z) == 0,
        forall|x: int, y: int, z: int|
            a.geometry.in_bounds(x, y, z) && x >= wall ==> #[trigger] a.velocity_x.cell(x, y, z) == 0,
        forall|x: int, y: int, z: int|
            a.geometry.in_bounds(x, y, z) && x >= wall ==> #[trigger] a.velocity_y.cell(x, y, z) == 0,
        forall|x: int, y: int, z: int|
            a.geometry.in_bounds(x, y, z) && x >= wall ==> #[trigger] a.velocity_z.cell(x, y, z) == 0,
        forall|i: int| 0 <= i < a.sources@.len() ==> (#[trigger] a.sources@[i]).position[0] < wall,
    ensures
        forall|x: int, y: int, z: int|
            a.geometry.in_bounds(x, y, z) && x >= wall ==> #[trigger] b.pressure.cell(x, y, z) == 0,
        forall|x: int, y: int, z: int|
            a.geometry.in_bounds(x, y, z) && x >= wall ==> #[trigger] b.pressure_previous.cell(x, y, z) == 0,
        forall|x: int, y: int, z: int|
            a.geometry.in_bounds(x, y, z) && x >= wall ==> #[trigger] b.velocity_x.cell(x, y, z) == 0,
        forall|x: int, y: int, z: int|
            a.geometry.in_bounds(x, y, z) && x >= wall ==> #[trigger] b.velocity_y.cell(x, y, z) == 0,
        forall|x: int, y: int, z: int|
            a.geometry.in_bounds(x, y, z) && x >= wall ==> #[trigger] b.velocity_z.cell(x, y, z) == 0,
{
    assert forall|x: int, y: int, z: int|
        a.geometry.in_bounds(x, y, z) && x >= wall implies #[trigger] a.velocity_next_x(x, y, z)
            == 0 by {
        if is_air(a.geometry.cell(x, y, z)) {
            if x == wall {
                assert(!is_air(a.geometry.cell(wall, y, z)));
            }
            assert(x != wall);
            assert(a.pressure.cell(x, y, z) == 0);
            assert(a.velocity_x.cell(x, y, z) == 0);
            if a.geometry.in_bounds(x + 1, y, z) {
                assert(a.pressure.cell(x + 1, y, z) == 0);
            }
            lemma_mul_zero(
                a.split_coef_kappa(),
                crate::stencil::raw_at(a.geometry, a.pressure, x + 1, y, z) - a.pressure.cell(
                    x,
                    y,
                    z,
                ),
            );
        } else {
            assert(a.velocity_next_x(x, y, z) == 0);
        }
    }
    assert forall|x: int, y: int, z: int|
        a.geometry.in_bounds(x, y, z) && x >= wall implies #[trigger] a.velocity_next_y(x, y, z)
            == 0 by {
        if is_air(a.geometry.cell(x, y, z)) {
            if x == wall {
                assert(!is_air(a.geometry.cell(wall, y, z)));
            }
            assert(x != wall);
            assert(a.pressure.cell(x, y, z) == 0);
            assert(a.velocity_y.cell(x, y, z) == 0);
            if a.geometry.in_bounds(x, y + 1, z) {
                assert(a.pressure.cell(x, y + 1, z) == 0);
            }
            lemma_mul_zero(
                a.split_coef_kappa(),
                crate::stencil::raw_at(a.geometry, a.pressure, x, y + 1, z) - a.pressure.cell(
                    x,
                    y,
                    z,
                ),
            );
        } else {
            assert(a.velocity_next_y(x, y, z) == 0);
        }
    }
    assert forall|x: int, y: int, z: int|
        a.geometry.in_bounds(x, y, z) && x >= wall implies #[trigger] a.velocity_next_z(x, y, z)
            == 0 by {
        if is_air(a.geometry.cell(x, y, z)) {
            if x == wall {
                assert(!is_air(a.geometry.cell(wall, y, z)));
            }
            assert(x != wall);
            assert(a.pressure.cell(x, y, z) == 0);
            assert(a.velocity_z.cell(x, y, z) == 0);
            if a.geometry.in_bounds(x, y, z + 1) {
                assert(a.pressure.cell(x, y, z + 1) == 0);
            }
            lemma_mul_zero(
                a.split_coef_kappa(),
                crate::stencil::raw_at(a.geometry, a.pressure, x, y, z + 1) - a.pressure.cell(
                    x,
                    y,
                    z,
                ),
            );
        } else {
            assert(a.velocity_next_z(x, y, z) == 0);
        }
    }
    assert forall|x: int, y: int, z: int|
        a.geometry.in_bounds(x, y, z) && x >= wall implies a.stencil_p_value(x, y, z) == 0 by {
        if is_air(a.geometry.cell(x, y, z)) {
            if x == wall {
                assert(!is_air(a.geometry.cell(wall, y, z)));
            }
            assert(x != wall);
            match a.scheme {
                Scheme::Compact { d1, d2, d3, d4 } => {
                    assert(crate::stencil::face_sum(a.geometry, a.pressure, x, y, z) == 0);
                    assert(crate::stencil::edge_sum(a.geometry, a.pressure, x, y, z) == 0);
                    assert(crate::stencil::corner_sum(a.geometry, a.pressure, x, y, z) == 0);
                    lemma_mul_zero(d4 as int, a.pressure.cell(x, y, z) as int);
                    lemma_mul_zero(d1 as int, crate::stencil::face_sum(a.geometry, a.pressure, x, y, z));
                    lemma_mul_zero(d2 as int, crate::stencil::edge_sum(a.geometry, a.pressure, x, y, z));
                    lemma_mul_zero(d3 as int, crate::stencil::corner_sum(a.geometry, a.pressure, x, y, z));
                },
                Scheme::Split { kappa_coef, rho_coef, damp_num, damp_den } => {
                    assert(a.velocity_next_x(x, y, z) == 0);
                    assert(a.velocity_next_y(x, y, z) == 0);
                    assert(a.velocity_next_z(x, y, z) == 0);
                    if a.geometry.in_bounds(x - 1, y, z) {
                        assert(a.velocity_next_x(x - 1, y, z) == 0);
                    }
                    if a.geometry.in_bounds(x, y - 1, z) {
                        assert(a.velocity_next_y(x, y - 1, z) == 0);
                    }
                    if a.geometry.in_bounds(x, y, z - 1) {
                        assert(a.velocity_next_z(x, y, z - 1) == 0);
                    }
                    lemma_mul_zero(
                        rho_coef as int,
                        (a.velocity_next_x(x, y, z) - a.velocity_next_raw_x(x - 1, y, z))
                            + (a.velocity_next_y(x, y, z) - a.velocity_next_raw_y(x, y - 1, z))
                            + (a.velocity_next_z(x, y, z) - a.velocity_next_raw_z(x, y, z - 1)),
                    );
                    lemma_mul_zero(
                        damp_num as int,
                        a.pressure.cell(x, y, z) - rho_coef * ((a.velocity_next_x(x, y, z)
                            - a.velocity_next_raw_x(x - 1, y, z)) + (a.velocity_next_y(x, y, z)
                            - a.velocity_next_raw_y(x, y - 1, z)) + (a.velocity_next_z(x, y, z)
                            - a.velocity_next_raw_z(x, y, z - 1))),
                    );
                    crate::stencil::lemma_div_trunc_zero(damp_den as int);
                },
            }
        }
    }
    assert forall|x: int, y: int, z: int|
        a.geometry.in_bounds(x, y, z) && x >= wall implies #[trigger] b.velocity_x.cell(x, y, z)
            == 0 by {
        match a.scheme {
            Scheme::Split { .. } => {
                assert(b.velocity_x.cell(x, y, z) == a.velocity_next_x(x, y, z));
            },
            Scheme::Compact { .. } => {
                assert(b.velocity_x.cell(x, y, z) == a.velocity_x.cell(x, y, z));
                assert(a.velocity_x.cell(x, y, z) == 0);
            },
        }
    }
    assert forall|x: int, y: int, z: int|
        a.geometry.in_bounds(x, y, z) && x >= wall implies #[trigger] b.velocity_y.cell(x, y, z)
            == 0 by {
        match a.scheme {
            Scheme::Split { .. } => {
                assert(b.velocity_y.cell(x, y, z) == a.velocity_next_y(x, y, z));
            },
            Scheme::Compact { .. } => {
                assert(b.velocity_y.cell(x, y, z) == a.velocity_y.cell(x, y, z));
                assert(a.velocity_y.cell(x, y, z) == 0);
            },
        }
    }
    assert forall|x: int, y: int, z: int|
        a.geometry.in_bounds(x, y, z) && x >= wall implies #[trigger] b.velocity_z.cell(x, y, z)
            == 0 by {
        match a.scheme {
            Scheme::Split { .. } => {
                assert(b.velocity_z.cell(x, y, z) == a.velocity_next_z(x, y, z));
            },
            Scheme::Compact { .. } => {
                assert(b.velocity_z.cell(x, y, z) == a.velocity_z.cell(x, y, z));
                assert(a.velocity_z.cell(x, y, z) == 0);
            },
        }
    }
    assert forall|x: int, y: int, z: int|
        a.geometry.in_bounds(x, y, z) && x >= wall implies #[trigger] b.pressure_previous.cell(
            x,
            y,
            z,
        ) == 0 by {
        assert(a.pressure.cell(x, y, z) == 0);
        assert(a.pressure_previous.cell(x, y, z) == 0);
        match a.scheme {
            Scheme::Split { .. } => {
                assert(b.pressure_previous.cell(x, y, z) == a.pressure_previous.cell(x, y, z));
            },
            Scheme::Compact { .. } => {
                assert(b.pressure_previous.cell(x, y, z) == a.pressure.cell(x, y, z));
            },
        }
    }
    assert forall|x: int, y: int, z: int|
        a.geometry.in_bounds(x, y, z) && x >= wall implies #[trigger] b.pressure.cell(x, y, z) == 0 by {
        assert forall|i: int|
            0 <= i < a.sources@.len()
                implies !((#[trigger] a.sources@[i]).position[0] == x
                && a.sources@[i].position[1] == y && a.sources@[i].position[2] == z) by {}
        lemma_injected_absent(
            a.geometry,
            a.sources@,
            amps,
            a.time_nanos_of(),
            x,
            y,
            z,
            a.sources@.len() as nat,
        );
    }
}

/// A grid of samples that reads the same under reflection of the w axis.
pub open spec fn mirror_w_sym_i64(g: Grid3<i64>) -> bool {
    forall|x: int, y: int, z: int|
        g.in_bounds(x, y, z) ==> #[trigger] g.cell(x, y, z) == g.cell(g.w - 1 - x, y, z)
}

/// An obstacle mask that reads the same under reflection of the w axis.
pub open spec fn mirror_w_sym_i8(g: Grid3<i8>) -> bool {
    forall|x: int, y: int, z: int|
        g.in_bounds(x, y, z) ==> #[trigger] g.cell(x, y, z) == g.cell(g.w - 1 - x, y, z)
}

/// A masked neighbour read mirrors: with mask and field symmetric, the
/// read at (u, v, t) equals the read at the reflected column.
proof fn lemma_masked_mirror(geo: Grid3<i8>, p: Grid3<i64>, u: int, v: int, t: int)
    requires
        geo.wf(),
        p.wf(),
        p.same_shape(geo),
        mirror_w_sym_i8(geo),
        mirror_w_sym_i64(p),
    ensures
        masked_at(geo, p, u, v, t) == masked_at(geo, p, geo.w - 1 - u, v, t),
{
    let mu = geo.w - 1 - u;
    if geo.in_bounds(u, v, t) {
        assert(geo.cell(u, v, t) == geo.cell(mu, v, t));
        assert(p.cell(u, v, t) == p.cell(mu, v, t));
    }
}

/// The three neighbourhood sums of the compact stencil mirror along the
/// w axis when the mask and the field do.
proof fn lemma_neighbourhood_sums_mirror(geo: Grid3<i8>, p: Grid3<i64>, x: int, y: int, z: int)
    requires
        geo.wf(),
        p.wf(),
        p.same_shape(geo),
        mirror_w_sym_i8(geo),
        mirror_w_sym_i64(p),
    ensures
        face_sum(geo, p, x, y, z) == face_sum(geo, p, geo.w - 1 - x, y, z),
        edge_sum(geo, p, x, y, z) == edge_sum(geo, p, geo.w - 1 - x, y, z),
        corner_sum(geo, p, x, y, z) == corner_sum(geo, p, geo.w - 1 - x, y, z),
{
    lemma_masked_mirror(geo, p, x - 1, y, z);
    lemma_masked_mirror(geo, p, x + 1, y, z);
    lemma_masked_mirror(geo, p, x, y - 1, z);
    lemma_masked_mirror(geo, p, x, y + 1, z);
    lemma_masked_mirror(geo, p, x, y, z - 1);
    lemma_masked_mirror(geo, p, x, y, z + 1);
    lemma_masked_mirror(geo, p, x - 1, y - 1, z);
    lemma_masked_mirror(geo, p, x - 1, y + 1, z);
    lemma_masked_mirror(geo, p, x + 1, y - 1, z);
    lemma_masked_mirror(geo, p, x + 1, y + 1, z);
    lemma_masked_mirror(geo, p, x - 1, y, z - 1);
    lemma_masked_mirror(geo, p, x - 1, y, z + 1);
    lemma_masked_mirror(geo, p, x + 1, y, z - 1);
    lemma_masked_mirror(geo, p, x + 1, y, z + 1);
    lemma_masked_mirror(geo, p, x, y - 1, z - 1);
    lemma_masked_mirror(geo, p, x, y - 1, z + 1);
    lemma_masked_mirror(geo, p, x, y + 1, z - 1);
    lemma_masked_mirror(geo, p, x, y + 1, z + 1);
    lemma_masked_mirror(geo, p, x - 1, y - 1, z - 1);
    lemma_masked_mirror(geo, p, x - 1, y - 1, z + 1);
    lemma_masked_mirror(geo, p, x - 1, y + 1, z - 1);
    lemma_masked_mirror(geo, p, x - 1, y + 1, z + 1);
    lemma_masked_mirror(geo, p, x + 1, y - 1, z - 1);
    lemma_masked_mirror(geo, p, x + 1, y - 1, z + 1);
    lemma_masked_mirror(geo, p, x + 1, y + 1, z - 1);
    lemma_masked_mirror(geo, p, x + 1, y + 1, z + 1);
}

/// Symmetry: with the mask and both pressure slices symmetric under
/// reflection of the w axis and every source on the mirror plane, a
/// compact-scheme step writes a field with the same symmetry. Together
/// with the two axis exchanges below, this reflection generates every
/// reflection and axis permutation of a cubic room that fixes a centred
/// source.
pub proof fn lemma_step_keeps_mirror_symmetry(a: Simulation, amps: Seq<i64>, b: Simulation)
    requires
        a.wf(),
        step_to(a, amps, b),
        a.scheme is Compact,
        mirror_w_sym_i8(a.geometry),
        mirror_w_sym_i64(a.pressure),
        mirror_w_sym_i64(a.pressure_previous),
        forall|i: int|
            0 <= i < a.sources@.len() ==> 2 * (#[trigger] a.sources@[i]).position[0] as int
                == a.geometry.w - 1,
    ensures
        mirror_w_sym_i64(b.pressure),
        mirror_w_sym_i64(b.pressure_previous),
{
    let w = a.geometry.w as int;
    assert forall|x: int, y: int, z: int|
        a.geometry.in_bounds(x, y, z) implies a.stencil_p_value(x, y, z) == a.stencil_p_value(
            w - 1 - x,
            y,
            z,
        ) by {
        let mx = w - 1 - x;
        lemma_neighbourhood_sums_mirror(a.geometry, a.pressure, x, y, z);
        assert(a.geometry.cell(x, y, z) == a.geometry.cell(mx, y, z));
        assert(a.pressure.cell(x, y, z) == a.pressure.cell(mx, y, z));
        assert(a.pressure_previous.cell(x, y, z) == a.pressure_previous.cell(mx, y, z));
    }
    let t = a.time_nanos_of();
    let n = a.sources@.len() as nat;
    assert forall|x: int, y: int, z: int|
        a.geometry.in_bounds(x, y, z) implies injected_total(
            a.geometry,
            a.sources@,
            amps,
            t,
            a.geometry.idx(x, y, z),
            n,
        ) == injected_total(a.geometry, a.sources@, amps, t, a.geometry.idx(w - 1 - x, y, z), n) by {
        let mx = w - 1 - x;
        if 2 * x == w - 1 {
            assert(mx == x);
        } else {
            assert forall|i: int|
                0 <= i < a.sources@.len()
                    implies !((#[trigger] a.sources@[i]).position[0] == x
                    && a.sources@[i].position[1] == y && a.sources@[i].position[2] == z) by {}
            assert forall|i: int|
                0 <= i < a.sources@.len()
                    implies !((#[trigger] a.sources@[i]).position[0] == mx
                    && a.sources@[i].position[1] == y && a.sources@[i].position[2] == z) by {}
            lemma_injected_absent(a.geometry, a.sources@, amps, t, x, y, z, n);
            lemma_injected_absent(a.geometry, a.sources@, amps, t, mx, y, z, n);
        }
    }
    assert forall|x: int, y: int, z: int|
        b.pressure.in_bounds(x, y, z) implies #[trigger] b.pressure.cell(x, y, z)
            == b.pressure.cell(b.pressure.w - 1 - x, y, z) by {
        assert(a.geometry.in_bounds(x, y, z));
        assert(a.geometry.in_bounds(w - 1 - x, y, z));
        assert(a.stencil_p_value(x, y, z) == a.stencil_p_value(w - 1 - x, y, z));
    }
    assert forall|x: int, y: int, z: int|
        b.pressure_previous.in_bounds(x, y, z) implies #[trigger] b.pressure_previous.cell(x, y, z)
            == b.pressure_previous.cell(b.pressure_previous.w - 1 - x, y, z) by {
        assert(b.pressure_previous == a.pressure);
        assert(a.pressure.in_bounds(x, y, z));
    }
}

/// Where the two kernel families meet: at an interior air cell whose
/// whole face neighbourhood is air, one split-scheme step writes exactly
/// the compact value with coefficients `d1 = kappa*rho`, `d2 = d3 = 0`,
/// `d4 = 2 - 6*kappa*rho`, provided the leapfrog relation
/// `rho * div V = P_prev - P` holds there and the loss factor is one.
/// The relation holds wherever the split pressure update itself produced
/// `P` from `P_prev`, and in the all-zero initial state; at domain-edge
/// cells the two families differ, the split update dropping one
/// `-kappa*rho*P` term the compact one keeps.
pub proof fn lemma_compact_matches_split_interior(a: Simulation, x: int, y: int, z: int)
    requires
        a.wf(),
        a.scheme is Split,
        a.split_damp_num() == a.split_damp_den(),
        a.geometry.in_bounds(x - 1, y, z),
        a.geometry.in_bounds(x + 1, y, z),
        a.geometry.in_bounds(x, y - 1, z),
        a.geometry.in_bounds(x, y + 1, z),
        a.geometry.in_bounds(x, y, z - 1),
        a.geometry.in_bounds(x, y, z + 1),
        is_air(a.geometry.cell(x, y, z)),
        is_air(a.geometry.cell(x - 1, y, z)),
        is_air(a.geometry.cell(x + 1, y, z)),
        is_air(a.geometry.cell(x, y - 1, z)),
        is_air(a.geometry.cell(x, y + 1, z)),
        is_air(a.geometry.cell(x, y, z - 1)),
        is_air(a.geometry.cell(x, y, z + 1)),
        a.split_coef_rho() * ((a.velocity_x.cell(x, y, z) - a.velocity_x.cell(x - 1, y, z))
            + (a.velocity_y.cell(x, y, z) - a.velocity_y.cell(x, y - 1, z))
            + (a.velocity_z.cell(x, y, z) - a.velocity_z.cell(x, y, z - 1)))
            == a.pressure_previous.cell(x, y, z) - a.pressure.cell(x, y, z),
    ensures
        a.stencil_p_value(x, y, z) == compact_value(
            a.geometry,
            a.pressure,
            a.pressure_previous,
            a.split_coef_kappa() * a.split_coef_rho(),
            0,
            0,
            2 - 6 * (a.split_coef_kappa() * a.split_coef_rho()),
            x,
            y,
            z,
        ),
{
    let kappa = a.split_coef_kappa();
    let rho = a.split_coef_rho();
    let p_c: int = a.pressure.cell(x, y, z) as int;
    let pp_c: int = a.pressure_previous.cell(x, y, z) as int;
    let pxp: int = a.pressure.cell(x + 1, y, z) as int;
    let pxm: int = a.pressure.cell(x - 1, y, z) as int;
    let pyp: int = a.pressure.cell(x, y + 1, z) as int;
    let pym: int = a.pressure.cell(x, y - 1, z) as int;
    let pzp: int = a.pressure.cell(x, y, z + 1) as int;
    let pzm: int = a.pressure.cell(x, y, z - 1) as int;
    let vxc: int = a.velocity_x.cell(x, y, z) as int;
    let vxm: int = a.velocity_x.cell(x - 1, y, z) as int;
    let vyc: int = a.velocity_y.cell(x, y, z) as int;
    let vym: int = a.velocity_y.cell(x, y - 1, z) as int;
    let vzc: int = a.velocity_z.cell(x, y, z) as int;
    let vzm: int = a.velocity_z.cell(x, y, z - 1) as int;

    assert(a.velocity_next_x(x, y, z) == vxc - kappa * (pxp - p_c));
    assert(a.velocity_next_raw_x(x - 1, y, z) == vxm - kappa * (p_c - pxm));
    assert(a.velocity_next_y(x, y, z) == vyc - kappa * (pyp - p_c));
    assert(a.velocity_next_raw_y(x, y - 1, z) == vym - kappa * (p_c - pym));
    assert(a.velocity_next_z(x, y, z) == vzc - kappa * (pzp - p_c));
    assert(a.velocity_next_raw_z(x, y, z - 1) == vzm - kappa * (p_c - pzm));
    let inner: int = p_c - rho * (((vxc - kappa * (pxp - p_c)) - (vxm - kappa * (p_c - pxm)))
        + ((vyc - kappa * (pyp - p_c)) - (vym - kappa * (p_c - pym))) + ((vzc - kappa * (pzp - p_c))
        - (vzm - kappa * (p_c - pzm))));
    assert(a.split_damp_num() >= 1);
    crate::stencil::lemma_div_trunc_exact(inner, a.split_damp_num());
    assert(a.stencil_p_value(x, y, z) == inner);
    assert(face_sum(a.geometry, a.pressure, x, y, z) == pxm + pxp + pym + pyp + pzm + pzp);
    assert(compact_value(
        a.geometry,
        a.pressure,
        a.pressure_previous,
        kappa * rho,
        0,
        0,
        2 - 6 * (kappa * rho),
        x,
        y,
        z,
    ) == (2 - 6 * (kappa * rho)) * p_c - pp_c + (kappa * rho) * (pxm + pxp + pym + pyp + pzm + pzp)
        + 0 * edge_sum(a.geometry, a.pressure, x, y, z) + 0 * corner_sum(
        a.geometry,
        a.pressure,
        x,
        y,
        z,
    ));
    lemma_leapfrog_identity(
        kappa, rho, p_c, pp_c, pxp, pxm, pyp, pym, pzp, pzm, vxc, vxm, vyc, vym, vzc, vzm,
    );
}

/// The algebra behind the family agreement: substituting the velocity
/// updates into the divergence update and using the leapfrog relation
/// yields the compact form.
proof fn lemma_leapfrog_identity(
    kappa: int,
    rho: int,
    p_c: int,
    pp_c: int,
    pxp: int,
    pxm: int,
    pyp: int,
    pym: int,
    pzp: int,
    pzm: int,
    vxc: int,
    vxm: int,
    vyc: int,
    vym: int,
    vzc: int,
    vzm: int,
)
    requires
        rho * ((vxc - vxm) + (vyc - vym) + (vzc - vzm)) == pp_c - p_c,
    ensures
        p_c - rho * (((vxc - kappa * (pxp - p_c)) - (vxm - kappa * (p_c - pxm))) + ((vyc - kappa
            * (pyp - p_c)) - (vym - kappa * (p_c - pym))) + ((vzc - kappa * (pzp - p_c)) - (vzm
            - kappa * (p_c - pzm)))) == (2 - 6 * (kappa * rho)) * p_c - pp_c + (kappa * rho) * (pxm
            + pxp + pym + pyp + pzm + pzp),
{
    assert(((vxc - kappa * (pxp - p_c)) - (vxm - kappa * (p_c - pxm))) + ((vyc - kappa * (pyp
        - p_c)) - (vym - kappa * (p_c - pym))) + ((vzc - kappa * (pzp - p_c)) - (vzm - kappa * (p_c
        - pzm))) == ((vxc - vxm) + (vyc - vym) + (vzc - vzm)) - kappa * ((pxm + pxp + pym + pyp
        + pzm + pzp) - 6 * p_c)) by (nonlinear_arith);
    assert(rho * (((vxc - vxm) + (vyc - vym) + (vzc - vzm)) - kappa * ((pxm + pxp + pym + pyp + pzm
        + pzp) - 6 * p_c)) == rho * ((vxc - vxm) + (vyc - vym) + (vzc - vzm)) - (kappa * rho)
        * (pxm + pxp + pym + pyp + pzm + pzp) + 6 * ((kappa * rho) * p_c)) by (nonlinear_arith);
    assert((2 - 6 * (kappa * rho)) * p_c == 2 * p_c - 6 * ((kappa * rho) * p_c)) by (nonlinear_arith);
}

/// Two engine states a caller cannot tell apart: the same configuration,
/// counters and sources, and the same stored sequence in every grid.
pub open spec fn observably_equal(a: Simulation, b: Simulation) -> bool {
    &&& a.params == b.params
    &&& a.scheme == b.scheme
    &&& a.analysis_enabled == b.analysis_enabled
    &&& a.neighbours_ready == b.neighbours_ready
    &&& a.iteration == b.iteration
    &&& a.sources@ == b.sources@
    &&& same_contents(a.geometry, b.geometry)
    &&& same_contents(a.neighbours, b.neighbours)
    &&& same_contents(a.pressure, b.pressure)
    &&& same_contents(a.pressure_previous, b.pressure_previous)
    &&& same_contents(a.velocity_x, b.velocity_x)
    &&& same_contents(a.velocity_y, b.velocity_y)
    &&& same_contents(a.velocity_z, b.velocity_z)
    &&& same_contents(a.analysis, b.analysis)
}

/// The injected totals read only the grid's shape, never its cells.
proof fn lemma_injected_congruent(
    g1: Grid3<i8>,
    g2: Grid3<i8>,
    sources: Seq<Source>,
    amps: Seq<i64>,
    t: int,
    j: int,
    k: nat,
)
    requires
        g1.w == g2.w,
        g1.h == g2.h,
        g1.d == g2.d,
    ensures
        injected_total(g1, sources, amps, t, j, k) == injected_total(g2, sources, amps, t, j, k),
    decreases k,
{
    if k > 0 {
        lemma_injected_congruent(g1, g2, sources, amps, t, j, (k - 1) as nat);
    }
}

/// One step from either of two observably equal states, with the same
/// amplitudes, lands in observably equal states: stepping reads nothing
/// but what a caller can see.
pub proof fn lemma_step_observational(
    a1: Simulation,
    a2: Simulation,
    amps: Seq<i64>,
    b1: Simulation,
    b2: Simulation,
)
    requires
        a1.wf(),
        a2.wf(),
        observably_equal(a1, a2),
        step_to(a1, amps, b1),
        step_to(a2, amps, b2),
    ensures
        observably_equal(b1, b2),
{
    assert forall|x: int, y: int, z: int|
        a1.geometry.in_bounds(x, y, z) implies {
            &&& a1.velocity_next_x(x, y, z) == a2.velocity_next_x(x, y, z)
            &&& a1.velocity_next_y(x, y, z) == a2.velocity_next_y(x, y, z)
            &&& a1.velocity_next_z(x, y, z) == a2.velocity_next_z(x, y, z)
            &&& #[trigger] a1.stencil_p_value(x, y, z) == a2.stencil_p_value(x, y, z)
        } by {
        assert(a1.split_coef_kappa() == a2.split_coef_kappa());
        assert(a1.split_coef_rho() == a2.split_coef_rho());
    }
    assert(a1.time_nanos_of() == a2.time_nanos_of());
    let t: int = a1.time_nanos_of();
    let n: nat = a1.sources@.len() as nat;
    assert forall|x: int, y: int, z: int|
        a1.geometry.in_bounds(x, y, z) implies injected_total(
            a1.geometry,
            a1.sources@,
            amps,
            t,
            a1.geometry.idx(x, y, z),
            n,
        ) == injected_total(a2.geometry, a2.sources@, amps, t, #[trigger] a2.geometry.idx(x, y, z), n) by {
        lemma_injected_congruent(
            a1.geometry,
            a2.geometry,
            a1.sources@,
            amps,
            t,
            a1.geometry.idx(x, y, z),
            n,
        );
    }
    assert forall|x: int, y: int, z: int|
        a1.geometry.in_bounds(x, y, z) implies #[trigger] b1.pressure.cell(x, y, z)
            == b2.pressure.cell(x, y, z) by {}
    lemma_contents_from_cells(b1.pressure, b2.pressure);
    match a1.scheme {
        Scheme::Split { .. } => {
            assert forall|x: int, y: int, z: int|
                a1.geometry.in_bounds(x, y, z) implies #[trigger] b1.velocity_x.cell(x, y, z)
                    == b2.velocity_x.cell(x, y, z) by {
                assert(b1.velocity_x.cell(x, y, z) == a1.velocity_next_x(x, y, z));
                assert(b2.velocity_x.cell(x, y, z) == a2.velocity_next_x(x, y, z));
            }
            assert forall|x: int, y: int, z: int|
                a1.geometry.in_bounds(x, y, z) implies #[trigger] b1.velocity_y.cell(x, y, z)
                    == b2.velocity_y.cell(x, y, z) by {
                assert(b1.velocity_y.cell(x, y, z) == a1.velocity_next_y(x, y, z));
                assert(b2.velocity_y.cell(x, y, z) == a2.velocity_next_y(x, y, z));
            }
            assert forall|x: int, y: int, z: int|
                a1.geometry.in_bounds(x, y, z) implies #[trigger] b1.velocity_z.cell(x, y, z)
                    == b2.velocity_z.cell(x, y, z) by {
                assert(b1.velocity_z.cell(x, y, z) == a1.velocity_next_z(x, y, z));
                assert(b2.velocity_z.cell(x, y, z) == a2.velocity_next_z(x, y, z));
            }
            lemma_contents_from_cells(b1.velocity_x, b2.velocity_x);
            lemma_contents_from_cells(b1.velocity_y, b2.velocity_y);
            lemma_contents_from_cells(b1.velocity_z, b2.velocity_z);
        },
        Scheme::Compact { .. } => {},
    }
    if a1.analysis_enabled {
        assert forall|x: int, y: int, z: int|
            a1.geometry.in_bounds(x, y, z) implies #[trigger] b1.analysis.cell(x, y, z)
                == b2.analysis.cell(x, y, z) by {
            assert(b1.analysis.cell(x, y, z) == a1.analysis_next(x, y, z));
            assert(b2.analysis.cell(x, y, z) == a2.analysis_next(x, y, z));
        }
        lemma_contents_from_cells(b1.analysis, b2.analysis);
    }
}

/// Any number of steps from either of two observably equal states,
/// through the same amplitude batches, lands in observably equal states:
/// stepping one engine N times and another in one batch of N gives, cell
/// for cell, the same pressure, velocity and analysis fields.
pub proof fn lemma_steps_observational(
    a1: Simulation,
    a2: Simulation,
    qs: Seq<Seq<i64>>,
    b1: Simulation,
    b2: Simulation,
)
    requires
        a1.wf(),
        a2.wf(),
        observably_equal(a1, a2),
        steps_to(a1, qs, b1),
        steps_to(a2, qs, b2),
    ensures
        observably_equal(b1, b2),
    decreases qs.len(),
{
    if qs.len() > 0 {
        let m1: Simulation = choose|m1: Simulation|
            #[trigger] step_to(a1, qs[0], m1) && steps_to(m1, qs.skip(1), b1);
        let m2: Simulation = choose|m2: Simulation|
            #[trigger] step_to(a2, qs[0], m2) && steps_to(m2, qs.skip(1), b2);
        lemma_step_wf(a1, qs[0], m1);
        lemma_step_wf(a2, qs[0], m2);
        lemma_step_observational(a1, a2, qs[0], m1, m2);
        lemma_steps_observational(m1, m2, qs.skip(1), b1, b2);
    }
}

/// A step's outcome is itself a well-formed engine state.
proof fn lemma_step_wf(a: Simulation, amps: Seq<i64>, b: Simulation)
    requires
        a.wf(),
        step_to(a, amps, b),
    ensures
        b.wf(),
{
}

/// A grid of samples that reads the same under exchange of the w and h
/// axes; meaningful for a grid with equal first two extents.
pub open spec fn swap_wh_sym_i64(g: Grid3<i64>) -> bool {
    &&& g.w == g.h
    &&& forall|x: int, y: int, z: int|
        g.in_bounds(x, y, z) ==> #[trigger] g.cell(x, y, z) == g.cell(y, x, z)
}

/// An obstacle mask that reads the same under exchange of the w and h axes.
pub open spec fn swap_wh_sym_i8(g: Grid3<i8>) -> bool {
    &&& g.w == g.h
    &&& forall|x: int, y: int, z: int|
        g.in_bounds(x, y, z) ==> #[trigger] g.cell(x, y, z) == g.cell(y, x, z)
}

/// A masked neighbour read exchanges: with mask and field symmetric under
/// the w/h exchange, the read at (u, v, t) equals the read at (v, u, t).
proof fn lemma_masked_swap_wh(geo: Grid3<i8>, p: Grid3<i64>, u: int, v: int, t: int)
    requires
        geo.wf(),
        p.wf(),
        p.same_shape(geo),
        swap_wh_sym_i8(geo),
        swap_wh_sym_i64(p),
    ensures
        masked_at(geo, p, u, v, t) == masked_at(geo, p, v, u, t),
{
    if geo.in_bounds(u, v, t) {
        assert(geo.cell(u, v, t) == geo.cell(v, u, t));
        assert(p.cell(u, v, t) == p.cell(v, u, t));
    }
    if geo.in_bounds(v, u, t) {
        assert(geo.cell(v, u, t) == geo.cell(u, v, t));
        assert(p.cell(v, u, t) == p.cell(u, v, t));
    }
}

/// The three neighbourhood sums of the compact stencil exchange the w and
/// h axes when the mask and the field do.
proof fn lemma_neighbourhood_sums_swap_wh(geo: Grid3<i8>, p: Grid3<i64>, x: int, y: int, z: int)
    requires
        geo.wf(),
        p.wf(),
        p.same_shape(geo),
        swap_wh_sym_i8(geo),
        swap_wh_sym_i64(p),
    ensures
        face_sum(geo, p, x, y, z) == face_sum(geo, p, y, x, z),
        edge_sum(geo, p, x, y, z) == edge_sum(geo, p, y, x, z),
        corner_sum(geo, p, x, y, z) == corner_sum(geo, p, y, x, z),
{
    lemma_masked_swap_wh(geo, p, x - 1, y, z);
    lemma_masked_swap_wh(geo, p, x + 1, y, z);
    lemma_masked_swap_wh(geo, p, x, y - 1, z);
    lemma_masked_swap_wh(geo, p, x, y + 1, z);
    lemma_masked_swap_wh(geo, p, x, y, z - 1);
    lemma_masked_swap_wh(geo, p, x, y, z + 1);
    lemma_masked_swap_wh(geo, p, x - 1, y - 1, z);
    lemma_masked_swap_wh(geo, p, x - 1, y + 1, z);
    lemma_masked_swap_wh(geo, p, x + 1, y - 1, z);
    lemma_masked_swap_wh(geo, p, x + 1, y + 1, z);
    lemma_masked_swap_wh(geo, p, x - 1, y, z - 1);
    lemma_masked_swap_wh(geo, p, x - 1, y, z + 1);
    lemma_masked_swap_wh(geo, p, x + 1, y, z - 1);
    lemma_masked_swap_wh(geo, p, x + 1, y, z + 1);
    lemma_masked_swap_wh(geo, p, x, y - 1, z - 1);
    lemma_masked_swap_wh(geo, p, x, y - 1, z + 1);
    lemma_masked_swap_wh(geo, p, x, y + 1, z - 1);
    lemma_masked_swap_wh(geo, p, x, y + 1, z + 1);
    lemma_masked_swap_wh(geo, p, x - 1, y - 1, z - 1);
    lemma_masked_swap_wh(geo, p, x - 1, y - 1, z + 1);
    lemma_masked_swap_wh(geo, p, x - 1, y + 1, z - 1);
    lemma_masked_swap_wh(geo, p, x - 1, y + 1, z + 1);
    lemma_masked_swap_wh(geo, p, x + 1, y - 1, z - 1);
    lemma_masked_swap_wh(geo, p, x + 1, y - 1, z + 1);
    lemma_masked_swap_wh(geo, p, x + 1, y + 1, z - 1);
    lemma_masked_swap_wh(geo, p, x + 1, y + 1, z + 1);
}

/// Symmetry under exchange of the w and h axes: in a room with equal
/// first two extents, with the mask and both pressure slices symmetric
/// under the exchange and every source on its diagonal, a compact-scheme
/// step writes a field with the same symmetry. Together with the mirror
/// lemma, repeated over the renamed axes, these generate every symmetry
/// of a cubic room that fixes a centred source.
pub proof fn lemma_step_keeps_swap_symmetry(a: Simulation, amps: Seq<i64>, b: Simulation)
    requires
        a.wf(),
        step_to(a, amps, b),
        a.scheme is Compact,
        swap_wh_sym_i8(a.geometry),
        swap_wh_sym_i64(a.pressure),
        swap_wh_sym_i64(a.pressure_previous),
        forall|i: int|
            0 <= i < a.sources@.len() ==> (#[trigger] a.sources@[i]).position[0]
                == a.sources@[i].position[1],
    ensures
        swap_wh_sym_i64(b.pressure),
        swap_wh_sym_i64(b.pressure_previous),
{
    assert forall|x: int, y: int, z: int|
        a.geometry.in_bounds(x, y, z) implies a.stencil_p_value(x, y, z) == a.stencil_p_value(
            y,
            x,
            z,
        ) by {
        lemma_neighbourhood_sums_swap_wh(a.geometry, a.pressure, x, y, z);
        assert(a.geometry.cell(x, y, z) == a.geometry.cell(y, x, z));
        assert(a.pressure.cell(x, y, z) == a.pressure.cell(y, x, z));
        assert(a.pressure_previous.cell(x, y, z) == a.pressure_previous.cell(y, x, z));
    }
    let t = a.time_nanos_of();
    let n = a.sources@.len() as nat;
    assert forall|x: int, y: int, z: int|
        a.geometry.in_bounds(x, y, z) implies injected_total(
            a.geometry,
            a.sources@,
            amps,
            t,
            a.geometry.idx(x, y, z),
            n,
        ) == injected_total(a.geometry, a.sources@, amps, t, a.geometry.idx(y, x, z), n) by {
        if x != y {
            assert forall|i: int|
                0 <= i < a.sources@.len()
                    implies !((#[trigger] a.sources@[i]).position[0] == x
                    && a.sources@[i].position[1] == y && a.sources@[i].position[2] == z) by {}
            assert forall|i: int|
                0 <= i < a.sources@.len()
                    implies !((#[trigger] a.sources@[i]).position[0] == y
                    && a.sources@[i].position[1] == x && a.sources@[i].position[2] == z) by {}
            lemma_injected_absent(a.geometry, a.sources@, amps, t, x, y, z, n);
            lemma_injected_absent(a.geometry, a.sources@, amps, t, y, x, z, n);
        }
    }
    assert forall|x: int, y: int, z: int|
        b.pressure.in_bounds(x, y, z) implies #[trigger] b.pressure.cell(x, y, z)
            == b.pressure.cell(y, x, z) by {
        assert(a.geometry.in_bounds(x, y, z));
        assert(a.geometry.in_bounds(y, x, z));
        assert(a.stencil_p_value(x, y, z) == a.stencil_p_value(y, x, z));
    }
    assert forall|x: int, y: int, z: int|
        b.pressure_previous.in_bounds(x, y, z) implies #[trigger] b.pressure_previous.cell(x, y, z)
            == b.pressure_previous.cell(y, x, z) by {
        assert(b.pressure_previous == a.pressure);
        assert(a.pressure.in_bounds(x, y, z));
    }
}

/// A grid of samples that reads the same under exchange of the h and d
/// axes; meaningful for a grid with equal last two extents.
pub open spec fn swap_hd_sym_i64(g: Grid3<i64>) -> bool {
    &&& g.h == g.d
    &&& forall|x: int, y: int, z: int|
        g.in_bounds(x, y, z) ==> #[trigger] g.cell(x, y, z) == g.cell(x, z, y)
}

/// An obstacle mask that reads the same under exchange of the h and d axes.
pub open spec fn swap_hd_sym_i8(g: Grid3<i8>) -> bool {
    &&& g.h == g.d
    &&& forall|x: int, y: int, z: int|
        g.in_bounds(x, y, z) ==> #[trigger] g.cell(x, y, z) == g.cell(x, z, y)
}

/// A masked neighbour read exchanges the h and d axes when the mask and
/// the field do.
proof fn lemma_masked_swap_hd(geo: Grid3<i8>, p: Grid3<i64>, u: int, v: int, t: int)
    requires
        geo.wf(),
        p.wf(),
        p.same_shape(geo),
        swap_hd_sym_i8(geo),
        swap_hd_sym_i64(p),
    ensures
        masked_at(geo, p, u, v, t) == masked_at(geo, p, u, t, v),
{
    if geo.in_bounds(u, v, t) {
        assert(geo.cell(u, v, t) == geo.cell(u, t, v));
        assert(p.cell(u, v, t) == p.cell(u, t, v));
    }
    if geo.in_bounds(u, t, v) {
        assert(geo.cell(u, t, v) == geo.cell(u, v, t));
        assert(p.cell(u, t, v) == p.cell(u, v, t));
    }
}

/// The three neighbourhood sums of the compact stencil exchange the h and
/// d axes when the mask and the field do.
proof fn lemma_neighbourhood_sums_swap_hd(geo: Grid3<i8>, p: Grid3<i64>, x: int, y: int, z: int)
    requires
        geo.wf(),
        p.wf(),
        p.same_shape(geo),
        swap_hd_sym_i8(geo),
        swap_hd_sym_i64(p),
    ensures
        face_sum(geo, p, x, y, z) == face_sum(geo, p, x, z, y),
        edge_sum(geo, p, x, y, z) == edge_sum(geo, p, x, z, y),
        corner_sum(geo, p, x, y, z) == corner_sum(geo, p, x, z, y),
{
    lemma_masked_swap_hd(geo, p, x - 1, y, z);
    lemma_masked_swap_hd(geo, p, x + 1, y, z);
    lemma_masked_swap_hd(geo, p, x, y - 1, z);
    lemma_masked_swap_hd(geo, p, x, y + 1, z);
    lemma_masked_swap_hd(geo, p, x, y, z - 1);
    lemma_masked_swap_hd(geo, p, x, y, z + 1);
    lemma_masked_swap_hd(geo, p, x - 1, y - 1, z);
    lemma_masked_swap_hd(geo, p, x - 1, y + 1, z);
    lemma_masked_swap_hd(geo, p, x + 1, y - 1, z);
    lemma_masked_swap_hd(geo, p, x + 1, y + 1, z);
    lemma_masked_swap_hd(geo, p, x - 1, y, z - 1);
    lemma_masked_swap_hd(geo, p, x - 1, y, z + 1);
    lemma_masked_swap_hd(geo, p, x + 1, y, z - 1);
    lemma_masked_swap_hd(geo, p, x + 1, y, z + 1);
    lemma_masked_swap_hd(geo, p, x, y - 1, z - 1);
    lemma_masked_swap_hd(geo, p, x, y - 1, z + 1);
    lemma_masked_swap_hd(geo, p, x, y + 1, z - 1);
    lemma_masked_swap_hd(geo, p, x, y + 1, z + 1);
    lemma_masked_swap_hd(geo, p, x - 1, y - 1, z - 1);
    lemma_masked_swap_hd(geo, p, x - 1, y - 1, z + 1);
    lemma_masked_swap_hd(geo, p, x - 1, y + 1, z - 1);
    lemma_masked_swap_hd(geo, p, x - 1, y + 1, z + 1);
    lemma_masked_swap_hd(geo, p, x + 1, y - 1, z - 1);
    lemma_masked_swap_hd(geo, p, x + 1, y - 1, z + 1);
    lemma_masked_swap_hd(geo, p, x + 1, y + 1, z - 1);
    lemma_masked_swap_hd(geo, p, x + 1, y + 1, z + 1);
}

/// Symmetry under exchange of the h and d axes, as
/// `lemma_step_keeps_swap_symmetry`. The w-axis mirror and the two
/// exchanges generate every reflection and axis permutation of a cubic
/// room, so a state symmetric under all three stays symmetric under the
/// whole group, step after step.
pub proof fn lemma_step_keeps_swap_hd_symmetry(a: Simulation, amps: Seq<i64>, b: Simulation)
    requires
        a.wf(),
        step_to(a, amps, b),
        a.scheme is Compact,
        swap_hd_sym_i8(a.geometry),
        swap_hd_sym_i64(a.pressure),
        swap_hd_sym_i64(a.pressure_previous),
        forall|i: int|
            0 <= i < a.sources@.len() ==> (#[trigger] a.sources@[i]).position[1]
                == a.sources@[i].position[2],
    ensures
        swap_hd_sym_i64(b.pressure),
        swap_hd_sym_i64(b.pressure_previous),
{
    assert forall|x: int, y: int, z: int|
        a.geometry.in_bounds(x, y, z) implies a.stencil_p_value(x, y, z) == a.stencil_p_value(
            x,
            z,
            y,
        ) by {
        lemma_neighbourhood_sums_swap_hd(a.geometry, a.pressure, x, y, z);
        assert(a.geometry.cell(x, y, z) == a.geometry.cell(x, z, y));
        assert(a.pressure.cell(x, y, z) == a.pressure.cell(x, z, y));
        assert(a.pressure_previous.cell(x, y, z) == a.pressure_previous.cell(x, z, y));
    }
    let t = a.time_nanos_of();
    let n = a.sources@.len() as nat;
    assert forall|x: int, y: int, z: int|
        a.geometry.in_bounds(x, y, z) implies injected_total(
            a.geometry,
            a.sources@,
            amps,
            t,
            a.geometry.idx(x, y, z),
            n,
        ) == injected_total(a.geometry, a.sources@, amps, t, a.geometry.idx(x, z, y), n) by {
        if y != z {
            assert forall|i: int|
                0 <= i < a.sources@.len()
                    implies !((#[trigger] a.sources@[i]).position[0] == x
                    && a.sources@[i].position[1] == y && a.sources@[i].position[2] == z) by {}
            assert forall|i: int|
                0 <= i < a.sources@.len()
                    implies !((#[trigger] a.sources@[i]).position[0] == x
                    && a.sources@[i].position[1] == z && a.sources@[i].position[2] == y) by {}
            lemma_injected_absent(a.geometry, a.sources@, amps, t, x, y, z, n);
            lemma_injected_absent(a.geometry, a.sources@, amps, t, x, z, y, n);
        }
    }
    assert forall|x: int, y: int, z: int|
        b.pressure.in_bounds(x, y, z) implies #[trigger] b.pressure.cell(x, y, z)
            == b.pressure.cell(x, z, y) by {
        assert(a.geometry.in_bounds(x, y, z));
        assert(a.geometry.in_bounds(x, z, y));
        assert(a.stencil_p_value(x, y, z) == a.stencil_p_value(x, z, y));
    }
    assert forall|x: int, y: int, z: int|
        b.pressure_previous.in_bounds(x, y, z) implies #[trigger] b.pressure_previous.cell(x, y, z)
            == b.pressure_previous.cell(x, z, y) by {
        assert(b.pressure_previous == a.pressure);
        assert(a.pressure.in_bounds(x, y, z));
    }
}

} // verus!
