//! Source gating: the sinusoid window is an exact rational interval, the
//! pulse always fires, and phase inversion flips the injected sign.

use fdtd_room::PULSE_WINDOW_SCALE;
use fdtd_room::Scheme;
use fdtd_room::Simulation;
use fdtd_room::SimulationParameters;
use fdtd_room::Source;

fn source_440_burst() -> Source {
    Source {
        position: [0, 0, 0],
        frequency_millihz: 440_000,
        pulses: 10,
        invert_phase: false,
        start_at_nanos: 0,
    }
}

#[test]
fn gated_burst_window_is_exact() {
    let s = source_440_burst();
    // ten cycles at 440 Hz last 10/440 s; the last nanosecond inside is
    // floor(10 * 10^12 / 440_000)
    let window: u128 = (10u128 * PULSE_WINDOW_SCALE as u128) / 440_000u128;
    assert_eq!(window, 22_727_272);
    assert!(s.is_active(0));
    assert!(s.is_active(window));
    assert!(!s.is_active(window + 1));
    assert!(!s.is_active(10 * window));
}

#[test]
fn gate_respects_start_time() {
    let mut s = source_440_burst();
    s.start_at_nanos = 5_000;
    assert!(!s.is_active(0));
    assert!(!s.is_active(4_999));
    assert!(s.is_active(5_000));
    assert!(s.is_active(5_000 + 22_727_272));
    assert!(!s.is_active(5_000 + 22_727_273));
}

#[test]
fn unbounded_sinusoid_never_ends() {
    let s = Source {
        position: [0, 0, 0],
        frequency_millihz: 1,
        pulses: 0,
        invert_phase: false,
        start_at_nanos: 3,
    };
    assert!(!s.is_active(2));
    assert!(s.is_active(3));
    assert!(s.is_active(u64::MAX as u128 * 1000));
}

#[test]
fn injection_sign_follows_phase_inversion() {
    let mut s = source_440_burst();
    assert_eq!(s.injection_sign(), 1);
    s.invert_phase = true;
    assert_eq!(s.injection_sign(), -1);
    // a pulse ignores the inversion flag
    s.pulses = 1;
    assert_eq!(s.injection_sign(), 1);
}

fn engine_with_source(s: Source) -> Simulation {
    let params = SimulationParameters::new(3, 3, 3, 1000).unwrap();
    let mut sim =
        Simulation::new(params, Scheme::Compact { d1: 0, d2: 0, d3: 0, d4: 0 }, false).unwrap();
    sim.add_source(s);
    sim
}

#[test]
fn gated_source_injects_only_inside_window() {
    // dt = 1000 ns; a burst of 2 cycles at 1 MHz lasts 2 us, so it is
    // active for steps at t = 0, 1000 and 2000 ns and silent afterwards
    let s = Source {
        position: [1, 1, 1],
        frequency_millihz: 1_000_000_000,
        pulses: 2,
        invert_phase: false,
        start_at_nanos: 0,
    };
    let mut sim = engine_with_source(s);
    let amps: Vec<i64> = vec![10];
    // with all-zero coefficients the update is P_next = -P_prev plus the
    // injection, so the source being active exactly at the first three
    // steps gives this sequence and no other
    let expected: Vec<i64> = vec![10, 10, 0, -10, 0, 10];
    for value in expected.iter() {
        sim.step(&amps).unwrap();
        assert_eq!(sim.pressure().get(1, 1, 1), *value);
    }
}

#[test]
fn inverted_sinusoid_subtracts() {
    let s = Source {
        position: [1, 1, 1],
        frequency_millihz: 1_000_000_000,
        pulses: 0,
        invert_phase: true,
        start_at_nanos: 0,
    };
    let mut sim = engine_with_source(s);
    sim.step(&vec![9]).unwrap();
    assert_eq!(sim.pressure().get(1, 1, 1), -9);
}

#[test]
fn pulse_source_injects_every_step() {
    let s = Source {
        position: [0, 2, 1],
        frequency_millihz: 440_000,
        pulses: 1,
        invert_phase: true,
        start_at_nanos: 1_000_000_000,
    };
    let mut sim = engine_with_source(s);
    // far before start_at, a pulse still injects, and inversion is ignored
    sim.step(&vec![4]).unwrap();
    assert_eq!(sim.pressure().get(0, 2, 1), 4);
    // with all-zero compact coefficients each new slice holds only the
    // fresh injection; a gated source would have contributed nothing here
    sim.step(&vec![5]).unwrap();
    assert_eq!(sim.pressure().get(0, 2, 1), 5);
}

#[test]
fn is_source_position_finds_sources() {
    let mut sim = engine_with_source(source_440_burst());
    assert!(sim.is_source_position(0, 0, 0));
    assert!(!sim.is_source_position(1, 1, 1));
    sim.add_source(Source {
        position: [2, 1, 0],
        frequency_millihz: 1,
        pulses: 1,
        invert_phase: false,
        start_at_nanos: 0,
    });
    assert!(sim.is_source_position(2, 1, 0));
}
