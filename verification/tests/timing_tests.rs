use fluid_simulation::timing::{advance_clock, schedule_fixed_steps, FixedSteps};

#[test]
fn a_frame_counts_at_most_a_quarter_second() {
    assert_eq!(advance_clock(0, 100), 100);
    assert_eq!(advance_clock(10, 250_000_000), 250_000_010);
    assert_eq!(advance_clock(10, 1_000_000_000), 250_000_010);
}

#[test]
fn whole_steps_are_run_and_the_rest_is_kept() {
    assert_eq!(
        schedule_fixed_steps(25, 10, 8),
        FixedSteps { steps: 2, accumulator: 5, fell_behind: false }
    );
    assert_eq!(
        schedule_fixed_steps(9, 10, 8),
        FixedSteps { steps: 0, accumulator: 9, fell_behind: false }
    );
}

#[test]
fn running_the_most_steps_drops_the_time_still_owed() {
    assert_eq!(
        schedule_fixed_steps(100, 10, 8),
        FixedSteps { steps: 8, accumulator: 0, fell_behind: true }
    );
    assert_eq!(
        schedule_fixed_steps(80, 10, 8),
        FixedSteps { steps: 8, accumulator: 0, fell_behind: true }
    );
    assert_eq!(
        schedule_fixed_steps(5, 0, 3),
        FixedSteps { steps: 3, accumulator: 0, fell_behind: true }
    );
}
