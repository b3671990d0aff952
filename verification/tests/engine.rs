//! Stepping: exact stencil values for both schemes, buffer rotation,
//! solid-cell silence, face-locked velocities, wall blocking, batching,
//! symmetry, the analysis accumulator, and the engine's error cases.

use fdtd_room::Scheme;
use fdtd_room::Simulation;
use fdtd_room::SimulationError;
use fdtd_room::SimulationParameters;
use fdtd_room::Source;

fn pulse_at(w: usize, h: usize, d: usize) -> Source {
    Source {
        position: [w, h, d],
        frequency_millihz: 600_000,
        pulses: 1,
        invert_phase: false,
        start_at_nanos: 0,
    }
}

fn engine(w: usize, h: usize, d: usize, scheme: Scheme) -> Simulation {
    let params = SimulationParameters::new(w, h, d, 1000).unwrap();
    Simulation::new(params, scheme, false).unwrap()
}

#[test]
fn compact_stencil_exact_values() {
    // distinct face, edge and corner coefficients pick the three
    // neighbourhood rings apart
    let mut sim = engine(3, 3, 3, Scheme::Compact { d1: 1, d2: 2, d3: 3, d4: 4 });
    sim.add_source(pulse_at(1, 1, 1));
    sim.calculate_neighbours();
    sim.step(&vec![5]).unwrap();
    assert_eq!(sim.pressure().get(1, 1, 1), 5);
    sim.step(&vec![0]).unwrap();
    // centre: d4 * 5
    assert_eq!(sim.pressure().get(1, 1, 1), 20);
    // face neighbour: d1 * 5
    assert_eq!(sim.pressure().get(0, 1, 1), 5);
    // edge neighbour: d2 * 5
    assert_eq!(sim.pressure().get(0, 0, 1), 10);
    // corner neighbour: d3 * 5
    assert_eq!(sim.pressure().get(0, 0, 0), 15);
    // the old slice rotated into pressure_previous
    assert_eq!(sim.pressure_previous.get(1, 1, 1), 5);
    assert_eq!(sim.iteration(), 2);
    assert_eq!(sim.time_nanos(), 2000);
}

#[test]
fn compact_second_order_uses_previous_slice() {
    let mut sim = engine(3, 3, 3, Scheme::Compact { d1: 0, d2: 0, d3: 0, d4: 0 });
    sim.add_source(pulse_at(1, 1, 1));
    sim.step(&vec![7]).unwrap();
    sim.step(&vec![0]).unwrap();
    // with every coefficient zero the update is P_next = -P_prev
    assert_eq!(sim.pressure().get(1, 1, 1), 0);
    sim.step(&vec![0]).unwrap();
    assert_eq!(sim.pressure().get(1, 1, 1), -7);
}

#[test]
fn split_scheme_exact_values() {
    let mut sim = engine(3, 3, 3, Scheme::Split { kappa_coef: 1, rho_coef: 1, damp_num: 1, damp_den: 1 });
    sim.add_source(pulse_at(1, 1, 1));
    sim.step(&vec![5]).unwrap();
    assert_eq!(sim.pressure().get(1, 1, 1), 5);
    sim.step(&vec![0]).unwrap();
    // velocity kernel first: V = -kappa * (P(next) - P(cell))
    assert_eq!(sim.velocity_x.get(1, 1, 1), 5);
    assert_eq!(sim.velocity_x.get(0, 1, 1), -5);
    assert_eq!(sim.velocity_y.get(1, 1, 1), 5);
    assert_eq!(sim.velocity_z.get(1, 1, 1), 5);
    // then the pressure kernel from the fresh divergence
    assert_eq!(sim.pressure().get(1, 1, 1), -25);
    assert_eq!(sim.pressure().get(2, 1, 1), 5);
}

#[test]
fn split_loss_factor_rounds_toward_zero() {
    // same setup as the undamped split test, with loss factor 1/2: the
    // velocity update is untouched, the pressure update is halved with
    // rounding toward zero
    let mut sim = engine(3, 3, 3, Scheme::Split { kappa_coef: 1, rho_coef: 1, damp_num: 1, damp_den: 2 });
    sim.add_source(pulse_at(1, 1, 1));
    sim.step(&vec![5]).unwrap();
    assert_eq!(sim.pressure().get(1, 1, 1), 5);
    sim.step(&vec![0]).unwrap();
    assert_eq!(sim.velocity_x.get(1, 1, 1), 5);
    // centre: trunc((5 - 30) / 2) = trunc(-12.5) = -12, not -13
    assert_eq!(sim.pressure().get(1, 1, 1), -12);
    // face neighbour: trunc(5 / 2) = 2
    assert_eq!(sim.pressure().get(2, 1, 1), 2);
    assert_eq!(sim.pressure().get(0, 1, 1), 2);
}

#[test]
fn solid_cells_hold_zero_pressure() {
    let mut sim = engine(4, 3, 3, Scheme::Compact { d1: 1, d2: 1, d3: 1, d4: 2 });
    for y in 0..3 {
        for z in 0..3 {
            sim.paint_solid(2, y, z);
        }
    }
    sim.paint_solid(0, 0, 0);
    sim.add_source(pulse_at(1, 1, 1));
    sim.calculate_neighbours();
    for _ in 0..5 {
        sim.step(&vec![3]).unwrap();
        for y in 0..3 {
            for z in 0..3 {
                assert_eq!(sim.pressure().get(2, y, z), 0);
            }
        }
        assert_eq!(sim.pressure().get(0, 0, 0), 0);
    }
}

#[test]
fn split_velocity_zero_at_solid_faces() {
    let mut sim = engine(4, 3, 3, Scheme::Split { kappa_coef: 2, rho_coef: 1, damp_num: 1, damp_den: 1 });
    for y in 0..3 {
        for z in 0..3 {
            sim.paint_solid(2, y, z);
        }
    }
    sim.add_source(pulse_at(1, 1, 1));
    sim.calculate_neighbours();
    for _ in 0..4 {
        sim.step(&vec![9]).unwrap();
        for y in 0..3 {
            for z in 0..3 {
                // the face from w=1 into the solid plane, and every face of
                // the plane itself, carry no velocity
                assert_eq!(sim.velocity_x.get(1, y, z), 0);
                assert_eq!(sim.velocity_x.get(2, y, z), 0);
            }
        }
    }
}

#[test]
fn solid_wall_fully_blocks_pulse() {
    let mut sim = engine(8, 3, 3, Scheme::Compact { d1: 1, d2: 1, d3: 1, d4: 2 });
    for y in 0..3 {
        for z in 0..3 {
            sim.paint_solid(4, y, z);
        }
    }
    sim.add_source(pulse_at(1, 1, 1));
    sim.calculate_neighbours();
    for _ in 0..10 {
        sim.step(&vec![1000]).unwrap();
        for x in 4..8 {
            for y in 0..3 {
                for z in 0..3 {
                    assert_eq!(sim.pressure().get(x, y, z), 0);
                }
            }
        }
    }
    // the field did reach the cell just before the wall
    assert_ne!(sim.pressure().get(3, 1, 1), 0);
}

#[test]
fn stepping_n_times_equals_one_batch_of_n() {
    let scheme = Scheme::Compact { d1: 1, d2: 0, d3: 0, d4: 2 };
    let mut one_by_one = engine(5, 5, 5, scheme);
    one_by_one.add_source(pulse_at(2, 2, 2));
    let mut batched = engine(5, 5, 5, scheme);
    batched.add_source(pulse_at(2, 2, 2));

    let per_step: Vec<i64> = vec![11, -3, 7, 0, 5, 2];
    for a in per_step.iter() {
        one_by_one.step(&vec![*a]).unwrap();
    }
    batched.step_many(6, &per_step).unwrap();

    assert_eq!(one_by_one.iteration(), batched.iteration());
    for x in 0..5 {
        for y in 0..5 {
            for z in 0..5 {
                assert_eq!(
                    one_by_one.pressure().get(x, y, z),
                    batched.pressure().get(x, y, z)
                );
                assert_eq!(
                    one_by_one.pressure_previous.get(x, y, z),
                    batched.pressure_previous.get(x, y, z)
                );
            }
        }
    }
}

#[test]
fn centred_pulse_field_is_symmetric() {
    // a single on-axis source in an empty cubic room: the field keeps the
    // mirror symmetries that fix the source
    let mut sim = engine(7, 7, 7, Scheme::Compact { d1: 1, d2: 2, d3: 3, d4: 2 });
    sim.add_source(pulse_at(3, 3, 3));
    for step in 0..4 {
        sim.step(&vec![100 - step]).unwrap();
    }
    for x in 0..7 {
        for y in 0..7 {
            for z in 0..7 {
                let v = sim.pressure().get(x, y, z);
                assert_eq!(v, sim.pressure().get(6 - x, y, z));
                assert_eq!(v, sim.pressure().get(x, 6 - y, z));
                assert_eq!(v, sim.pressure().get(x, y, 6 - z));
                // the room is a cube, so axis swaps that fix the source
                // are symmetries too
                assert_eq!(v, sim.pressure().get(y, x, z));
                assert_eq!(v, sim.pressure().get(z, y, x));
            }
        }
    }
}

#[test]
fn uninitialized_neighbours_is_refused() {
    let mut sim = engine(3, 3, 3, Scheme::Compact { d1: 1, d2: 0, d3: 0, d4: 2 });
    // an empty mask needs no neighbour field
    sim.step(&vec![]).unwrap();
    // painting makes the mask non-empty: stepping is refused until the
    // neighbours are computed
    sim.paint_solid(0, 0, 0);
    assert_eq!(
        sim.step(&vec![]).unwrap_err(),
        SimulationError::UninitializedNeighbours
    );
    assert_eq!(sim.iteration(), 1);
    sim.calculate_neighbours();
    sim.step(&vec![]).unwrap();
    assert_eq!(sim.iteration(), 2);
}

#[test]
fn sample_overflow_is_reported_and_state_kept() {
    let mut sim = engine(3, 3, 3, Scheme::Compact { d1: 0, d2: 0, d3: 0, d4: 2 });
    sim.add_source(pulse_at(1, 1, 1));
    sim.step(&vec![i64::MAX]).unwrap();
    assert_eq!(sim.pressure().get(1, 1, 1), i64::MAX);
    // the next slice would hold 2 * i64::MAX, which no sample can
    assert_eq!(
        sim.step(&vec![0]).unwrap_err(),
        SimulationError::SampleOverflow
    );
    // the refused step left everything in place
    assert_eq!(sim.iteration(), 1);
    assert_eq!(sim.pressure().get(1, 1, 1), i64::MAX);
}

#[test]
fn analysis_accumulates_squared_pressure() {
    let params = SimulationParameters::new(3, 3, 3, 1000).unwrap();
    let mut sim =
        Simulation::new(params, Scheme::Compact { d1: 0, d2: 0, d3: 0, d4: 2 }, true).unwrap();
    sim.add_source(pulse_at(1, 1, 1));
    sim.step(&vec![3]).unwrap();
    // the first step squares a still-zero stencil slice
    assert_eq!(sim.analysis().get(1, 1, 1), 0);
    sim.step(&vec![0]).unwrap();
    // the second step's stencil slice holds 2 * 3 at the centre
    assert_eq!(sim.analysis().get(1, 1, 1), 36);
    assert_eq!(sim.pressure().get(1, 1, 1), 6);
}

#[test]
fn sources_step_injects_without_stepping() {
    let mut sim = engine(3, 3, 3, Scheme::Compact { d1: 1, d2: 0, d3: 0, d4: 2 });
    sim.add_source(pulse_at(0, 1, 2));
    sim.sources_step(&vec![42]).unwrap();
    assert_eq!(sim.pressure().get(0, 1, 2), 42);
    assert_eq!(sim.iteration(), 0);
    sim.sources_step(&vec![-2]).unwrap();
    assert_eq!(sim.pressure().get(0, 1, 2), 40);
}
