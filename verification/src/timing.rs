//! The fixed-rate clock of the simulation: how much of a frame's time is
//! counted, and how many fixed steps the counted time pays for.

use vstd::prelude::*;

verus! {

/// The most time, in nanoseconds, that one frame adds to the simulation clock.
pub const MAX_FRAME_NANOS: u128 = 250_000_000u128;

/// The longest span of time, in nanoseconds, that the clock can hold: `u64::MAX`
/// seconds and `999_999_999` nanoseconds.
pub const MAX_CLOCK_NANOS: u128 = 18_446_744_073_709_551_615_999_999_999u128;

/// The time that a frame of `elapsed` nanoseconds adds to the clock.
pub open spec fn counted_time(elapsed: u128) -> u128 {
    if elapsed <= MAX_FRAME_NANOS {
        elapsed
    } else {
        MAX_FRAME_NANOS
    }
}

/// The clock after a frame of `elapsed` nanoseconds: the time owed so far
/// plus the frame's time, counted up to a quarter of a second.
pub fn advance_clock(accumulator: u128, elapsed: u128) -> (r: u128)
    requires
        accumulator + counted_time(elapsed) <= MAX_CLOCK_NANOS,
    ensures
        r == accumulator + counted_time(elapsed),
{
    let frame_time = if elapsed <= MAX_FRAME_NANOS {
        elapsed
    } else {
        MAX_FRAME_NANOS
    };
    accumulator + frame_time
}

/// The number of fixed steps that `accumulator` nanoseconds pay for, at
/// `fixed_step` nanoseconds each and at most `max_steps` per frame (with a
/// zero step, always `max_steps`).
pub open spec fn steps_due(accumulator: u128, fixed_step: u128, max_steps: usize) -> int {
    if fixed_step == 0 {
        max_steps as int
    } else if accumulator / fixed_step <= max_steps {
        (accumulator / fixed_step) as int
    } else {
        max_steps as int
    }
}

/// What one frame of the fixed-rate clock decides.
#[derive(Clone, Copy, PartialEq, Eq, Structural, Debug)]
pub struct FixedSteps {
    /// Steps to run this frame.
    pub steps: usize,
    /// Time still owed after them, in nanoseconds.
    pub accumulator: u128,
    /// The frame ran the most steps it may, and the time still owed was dropped.
    pub fell_behind: bool,
}

/// Runs fixed steps while a whole step is owed and fewer than `max_steps`
/// have run; when `max_steps` have run, the time still owed is dropped.
pub fn schedule_fixed_steps(accumulator: u128, fixed_step: u128, max_steps: usize) -> (r: FixedSteps)
    ensures
        r.steps == steps_due(accumulator, fixed_step, max_steps),
        r.fell_behind == (r.steps == max_steps),
        r.accumulator == (if r.fell_behind {
            0
        } else {
            accumulator - r.steps * fixed_step
        }),
{
    let mut owed = accumulator;
    let mut steps: usize = 0;
    while owed >= fixed_step && steps < max_steps
        invariant
            steps <= max_steps,
            owed == accumulator - steps * fixed_step,
        decreases max_steps - steps,
    {
        owed = owed - fixed_step;
        steps = steps + 1;
        assert(owed == accumulator - steps * fixed_step) by (nonlinear_arith)
            requires
                owed == accumulator - (steps - 1) * fixed_step - fixed_step,
        ;
    }
    proof {
        if fixed_step > 0 {
            if steps < max_steps {
                assert(accumulator == steps * fixed_step + owed && 0 <= owed < fixed_step);
                vstd::arithmetic::div_mod::lemma_fundamental_div_mod_converse(
                    accumulator as int,
                    fixed_step as int,
                    steps as int,
                    owed as int,
                );
            } else {
                assert(steps <= accumulator / fixed_step) by (nonlinear_arith)
                    requires
                        fixed_step > 0,
                        steps * fixed_step <= accumulator,
                        0 <= steps,
                {
                    vstd::arithmetic::div_mod::lemma_fundamental_div_mod(accumulator as int, fixed_step as int);
                    if steps > accumulator / fixed_step {
                        assert((accumulator / fixed_step + 1) * fixed_step <= steps * fixed_step);
                    }
                }
            }
        }
    }
    let fell_behind = steps == max_steps;
    if fell_behind {
        owed = 0;
    }
    FixedSteps { steps, accumulator: owed, fell_behind }
}

} // verus!
