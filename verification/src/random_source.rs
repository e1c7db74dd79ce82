//! Sources of uniform unit-fraction draws.
//!
//! The palette generators consume randomness through an explicit source
//! value rather than a process-wide generator, so a caller can replay a
//! fixed tape of draws, seed a deterministic pseudo-random stream, or feed
//! in entropy gathered elsewhere. Every draw is a fixed-point unit fraction
//! in `[0, UNIT)`, and both the draw and the successor state are exact
//! functions of the current state.

use crate::fixed::UNIT;
use vstd::prelude::*;

verus! {

/// Multiplier of the linear-congruential step.
pub const LCG_MUL: u64 = 6_364_136_223_846_793_005;

/// Increment of the linear-congruential step.
pub const LCG_INC: u64 = 1_442_695_040_888_963_407;

/// The linear-congruential successor of a 64-bit state.
pub open spec fn lcg_next_spec(state: u64) -> u64 {
    vstd::wrapping::u64_specs::wrapping_add(
        vstd::wrapping::u64_specs::wrapping_mul(state, LCG_MUL),
        LCG_INC,
    )
}

/// The unit fraction drawn from a freshly stepped state: the high bits of
/// the successor, reduced into `[0, UNIT)`.
pub open spec fn lcg_draw_spec(state: u64) -> int {
    ((lcg_next_spec(state) >> 33u64) % (UNIT as u64)) as int
}

/// A deterministic source of uniform draws in `[0, UNIT)`.
#[derive(Debug)]
pub enum UniformSource {
    /// Replays a fixed tape of unit fractions, cycling once exhausted; an
    /// empty tape draws zeros forever.
    Tape { values: Vec<i64>, pos: usize },
    /// A seeded linear-congruential pseudo-random stream.
    Lcg { state: u64 },
}

impl UniformSource {
    /// A source is well formed when every tape entry is a unit fraction and
    /// the cursor sits inside the tape (or at zero for an empty tape).
    pub open spec fn wf(self) -> bool {
        match self {
            UniformSource::Tape { values, pos } => {
                &&& forall|i: int| 0 <= i < values@.len() ==> 0 <= #[trigger] values@[i] < UNIT
                &&& if values@.len() == 0 {
                    pos == 0
                } else {
                    pos < values@.len()
                }
            },
            UniformSource::Lcg { state } => true,
        }
    }

    /// The draw the source will hand out next.
    pub open spec fn peek_spec(self) -> int {
        match self {
            UniformSource::Tape { values, pos } => {
                if values@.len() == 0 {
                    0
                } else {
                    values@[pos as int] as int
                }
            },
            UniformSource::Lcg { state } => lcg_draw_spec(state),
        }
    }

    /// The state the source moves to after one draw.
    pub open spec fn step_spec(self) -> UniformSource {
        match self {
            UniformSource::Tape { values, pos } => {
                let n = if values@.len() == 0 {
                    0
                } else if pos + 1 == values@.len() {
                    0
                } else {
                    (pos + 1) as usize
                };
                UniformSource::Tape { values, pos: n as usize }
            },
            UniformSource::Lcg { state } => UniformSource::Lcg { state: lcg_next_spec(state) },
        }
    }

    /// Stepping a well-formed source keeps it well formed, and what it
    /// hands out is always a unit fraction.
    pub proof fn lemma_step_props(self)
        requires
            self.wf(),
        ensures
            self.step_spec().wf(),
            0 <= self.peek_spec() < UNIT,
    {
    }

    /// A source replaying the given tape of unit fractions from its start.
    pub fn from_tape(values: Vec<i64>) -> (s: UniformSource)
        requires
            forall|i: int| 0 <= i < values@.len() ==> 0 <= #[trigger] values@[i] < UNIT,
        ensures
            s.wf(),
            s == (UniformSource::Tape { values, pos: 0usize }),
    {
        UniformSource::Tape { values, pos: 0 }
    }

    /// A pseudo-random source determined entirely by `seed`.
    pub fn from_seed(seed: u64) -> (s: UniformSource)
        ensures
            s.wf(),
            s == (UniformSource::Lcg { state: seed }),
    {
        UniformSource::Lcg { state: seed }
    }

    /// Draws the next unit fraction and advances the source. The draw and
    /// the new state are exact functions of the old state, which is what
    /// makes every generated palette reproducible.
    pub fn next_unit(&mut self) -> (r: i64)
        requires
            old(self).wf(),
        ensures
            final(self).wf(),
            r == old(self).peek_spec(),
            *final(self) == old(self).step_spec(),
            0 <= r < UNIT,
    {
        match self {
            UniformSource::Tape { values, pos } => {
                if values.len() == 0 {
                    0
                } else {
                    let r = values[*pos];
                    if *pos + 1 == values.len() {
                        *pos = 0;
                    } else {
                        *pos = *pos + 1;
                    }
                    r
                }
            },
            UniformSource::Lcg { state } => {
                let s = state.wrapping_mul(LCG_MUL).wrapping_add(LCG_INC);
                *state = s;
                let r = ((s >> 33u64) % (UNIT as u64)) as i64;
                r
            },
        }
    }
}

} // verus!
