//! Grid construction, geometry painting, and neighbour precomputation.

use fdtd_room::Scheme;
use fdtd_room::Simulation;
use fdtd_room::SimulationError;
use fdtd_room::SimulationParameters;
use fdtd_room::WALL_FLAG;
use fdtd_room::create_grid_i64;
use fdtd_room::create_grid_i8;

fn compact_engine(w: usize, h: usize, d: usize) -> Simulation {
    let params = SimulationParameters::new(w, h, d, 1000).unwrap();
    Simulation::new(params, Scheme::Compact { d1: 1, d2: 0, d3: 0, d4: 0 }, false).unwrap()
}

#[test]
fn grid_allocation_and_shape() {
    let g = create_grid_i8(3, 4, 5).unwrap();
    assert_eq!(g.w, 3);
    assert_eq!(g.h, 4);
    assert_eq!(g.d, 5);
    assert_eq!(g.cells.len(), 60);
    for c in g.cells.iter() {
        assert_eq!(*c, 0);
    }
    assert!(create_grid_i8(0, 4, 5).is_none());
    assert!(create_grid_i8(usize::MAX, 2, 2).is_none());
    let mut samples = create_grid_i64(2, 2, 2).unwrap();
    assert_eq!(samples.get(1, 1, 1), 0);
    samples.set(1, 0, 1, -5);
    assert_eq!(samples.get(1, 0, 1), -5);
    assert_eq!(samples.get(1, 1, 1), 0);
}

#[test]
fn parameter_validation() {
    assert_eq!(
        SimulationParameters::new(0, 3, 3, 1000).unwrap_err(),
        SimulationError::InvalidParameter
    );
    assert_eq!(
        SimulationParameters::new(3, 3, 3, 0).unwrap_err(),
        SimulationError::InvalidParameter
    );
    let p = SimulationParameters::new(3, 4, 5, 7).unwrap();
    assert_eq!(p.grid_size, 60);
    assert_eq!(p.dt_nanos, 7);
    // coefficients outside the pass bound are rejected at construction
    let bad = Simulation::new(p, Scheme::Compact { d1: i64::MAX, d2: 0, d3: 0, d4: 0 }, false);
    match bad {
        Err(e) => assert_eq!(e, SimulationError::InvalidParameter),
        Ok(_) => panic!("out-of-bound coefficients must be rejected"),
    }
}

#[test]
fn neighbour_counts_empty_room() {
    let mut sim = compact_engine(3, 3, 3);
    sim.calculate_neighbours();
    let nb = sim.neighbours();
    // interior cell has all six face neighbours open
    assert_eq!(nb.get(1, 1, 1), 6);
    // a corner touches only three in-bounds cells
    assert_eq!(nb.get(0, 0, 0), 3);
    // a face centre touches five
    assert_eq!(nb.get(0, 1, 1), 5);
    // an edge centre touches four
    assert_eq!(nb.get(0, 0, 1), 4);
}

#[test]
fn neighbour_counts_with_solid_cell() {
    let mut sim = compact_engine(3, 3, 3);
    sim.paint_solid(1, 1, 1);
    sim.calculate_neighbours();
    let nb = sim.neighbours();
    // a solid cell reports zero
    assert_eq!(nb.get(1, 1, 1), 0);
    // an air cell next to it loses exactly that neighbour
    assert_eq!(nb.get(0, 1, 1), 4);
    assert_eq!(nb.get(1, 0, 1), 4);
    // cells not adjacent to the solid cell keep their counts
    assert_eq!(nb.get(0, 0, 0), 3);
}

#[test]
fn geometry_painting_sets_wall_flag() {
    let mut sim = compact_engine(3, 3, 3);
    assert_eq!(sim.geometry().get(2, 0, 1), 0);
    sim.paint_solid(2, 0, 1);
    assert_eq!(sim.geometry().get(2, 0, 1), WALL_FLAG);
    // painting twice keeps the bit set
    sim.paint_solid(2, 0, 1);
    assert_eq!(sim.geometry().get(2, 0, 1), WALL_FLAG);
    // other cells are untouched
    assert_eq!(sim.geometry().get(2, 0, 0), 0);
}

#[test]
fn neighbour_recomputation_is_deterministic() {
    let mut sim = compact_engine(4, 4, 4);
    // paint a first mask and remember it together with its neighbours
    let painted: Vec<(usize, usize, usize)> = vec![(0, 0, 0), (1, 2, 3), (2, 2, 2), (3, 1, 0)];
    for &(x, y, z) in painted.iter() {
        sim.paint_solid(x, y, z);
    }
    sim.calculate_neighbours();
    let mut snapshot: Vec<i8> = Vec::new();
    for x in 0..4 {
        for y in 0..4 {
            for z in 0..4 {
                snapshot.push(sim.neighbours().get(x, y, z));
            }
        }
    }
    // paint a different mask and recompute
    sim.paint_solid(1, 1, 1);
    sim.paint_solid(3, 3, 3);
    sim.calculate_neighbours();
    // restore the first mask exactly and recompute again
    sim.set_geometry_cell(1, 1, 1, 0);
    sim.set_geometry_cell(3, 3, 3, 0);
    sim.calculate_neighbours();
    let mut idx: usize = 0;
    for x in 0..4 {
        for y in 0..4 {
            for z in 0..4 {
                assert_eq!(sim.neighbours().get(x, y, z), snapshot[idx]);
                idx += 1;
            }
        }
    }
}
