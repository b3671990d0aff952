//! Point sound sources and their gating rules.
//!
//! A source excites the pressure field at one cell. A source with
//! `pulses == 1` is a Gaussian-modulated pulse and injects on every step;
//! any other source is a sinusoid gated to a window of `pulses` whole
//! cycles from its start time (`pulses == 0` leaves the window open-ended).
//! Times are carried in integer nanoseconds and frequencies in integer
//! millihertz; deciding whether a sinusoid is on needs only integer
//! arithmetic. The transcendental sample amplitudes themselves are
//! computed outside the library and handed in as plain values.

use vstd::prelude::*;

use vstd::arithmetic::div_mod::lemma_div_pos_is_pos;
use vstd::arithmetic::div_mod::lemma_fundamental_div_mod;
use vstd::arithmetic::div_mod::lemma_mod_pos_bound;

verus! {

/// Nanoseconds per second times milliunits per unit: with frequency in
/// millihertz, `pulses` cycles last `pulses * PULSE_WINDOW_SCALE / frequency`
/// nanoseconds.
pub const PULSE_WINDOW_SCALE: u64 = 1_000_000_000_000;

/// A point excitation of the pressure field.
#[derive(Clone, Copy)]
pub struct Source {
    /// Cell index (w, h, d) the source drives.
    pub position: [usize; 3],
    /// Frequency of the excitation, in millihertz; positive.
    pub frequency_millihz: u64,
    /// 1 selects a single Gaussian-modulated pulse, 0 an unbounded
    /// sinusoid, any other value a sinusoid gated to that many cycles.
    pub pulses: u64,
    /// Flip the sign of a sinusoid source; ignored for a pulse.
    pub invert_phase: bool,
    /// Time the excitation starts, in nanoseconds.
    pub start_at_nanos: u64,
}

impl Source {
    /// A source is well-formed when its frequency is positive.
    pub open spec fn wf(self) -> bool {
        self.frequency_millihz >= 1
    }

    /// The sinusoid gate: open from the start time through `pulses` whole
    /// cycles, or forever when `pulses == 0`. Exact rational comparison:
    /// `t - start <= pulses / frequency` in seconds.
    pub open spec fn sinusoid_active(self, t_nanos: int) -> bool {
        &&& t_nanos >= self.start_at_nanos
        &&& (self.pulses == 0
            || (t_nanos - self.start_at_nanos) * self.frequency_millihz
                <= self.pulses * PULSE_WINDOW_SCALE)
    }

    /// Whether the source adds to the pressure field at time `t_nanos`.
    /// A Gaussian pulse always injects; a sinusoid only inside its gate.
    pub open spec fn injects_at(self, t_nanos: int) -> bool {
        if self.pulses == 1 {
            true
        } else {
            self.sinusoid_active(t_nanos)
        }
    }

    /// The sign the injected sample is multiplied by: -1 for a
    /// phase-inverted sinusoid, else +1.
    pub open spec fn phase_factor(self) -> int {
        if self.pulses != 1 && self.invert_phase {
            -1
        } else {
            1
        }
    }

    /// Decide the sinusoid gate at time `t_nanos`.
    pub fn is_active(&self, t_nanos: u128) -> (b: bool)
        requires
            self.wf(),
        ensures
            b == self.sinusoid_active(t_nanos as int),
    {
        if t_nanos < self.start_at_nanos as u128 {
            return false;
        }
        if self.pulses == 0 {
            return true;
        }
        let rel: u128 = t_nanos - self.start_at_nanos as u128;
        proof {
            assert(self.pulses * PULSE_WINDOW_SCALE <= u64::MAX * PULSE_WINDOW_SCALE <= u128::MAX)
                by (nonlinear_arith)
                requires
                    self.pulses <= u64::MAX,
            ;
        }
        let window_num: u128 = (self.pulses as u128) * (PULSE_WINDOW_SCALE as u128);
        let bound: u128 = window_num / (self.frequency_millihz as u128);
        proof {
            lemma_mul_le_iff_div(rel as int, self.frequency_millihz as int, window_num as int);
        }
        rel <= bound
    }

    /// The phase factor as an executable sample multiplier.
    pub fn injection_sign(&self) -> (s: i64)
        ensures
            s as int == self.phase_factor(),
    {
        if self.pulses != 1 && self.invert_phase {
            -1
        } else {
            1
        }
    }
}

/// For a positive divisor, comparing a product against a bound is the same
/// as comparing the factor against the quotient: `rel * f <= p` exactly
/// when `rel <= p / f`.
pub proof fn lemma_mul_le_iff_div(rel: int, f: int, p: int)
    requires
        f >= 1,
        rel >= 0,
        p >= 0,
    ensures
        rel * f <= p <==> rel <= p / f,
{
    lemma_fundamental_div_mod(p, f);
    lemma_mod_pos_bound(p, f);
    lemma_div_pos_is_pos(p, f);
    let q: int = p / f;
    let r: int = p % f;
    assert(f * q == q * f) by (nonlinear_arith);
    if rel <= q {
        assert(rel * f <= q * f) by (nonlinear_arith)
            requires
                0 <= rel <= q,
                f >= 1,
        ;
    } else {
        assert(rel * f >= (q + 1) * f) by (nonlinear_arith)
            requires
                rel >= q + 1,
                f >= 1,
                q >= 0,
        ;
        assert((q + 1) * f == q * f + f) by (nonlinear_arith);
    }
}

/// The sinusoid window is one interval: a time between two active times
/// is itself active. Together with the window bounds, a gated burst
/// therefore adds nothing before its start time and nothing after its
/// last cycle, and its sinusoid sample everywhere inside.
pub proof fn lemma_gate_is_interval(s: Source, t1: int, t2: int, t3: int)
    requires
        s.wf(),
        t1 <= t2 <= t3,
        s.sinusoid_active(t1),
        s.sinusoid_active(t3),
    ensures
        s.sinusoid_active(t2),
{
    if s.pulses != 0 {
        assert((t2 - s.start_at_nanos) * s.frequency_millihz
            <= (t3 - s.start_at_nanos) * s.frequency_millihz) by (nonlinear_arith)
            requires
                t2 <= t3,
                s.frequency_millihz >= 1,
        ;
    }
}

} // verus!
