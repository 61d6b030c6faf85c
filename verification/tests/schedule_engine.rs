use acurast_marketplace::{Error, Schedule};

fn sched(start: u64, end: u64, duration: u64, interval: u64) -> Schedule {
    Schedule { start_time: start, end_time: end, interval, duration }
}

#[test]
fn execution_count_four_executions() {
    let s = sched(1000, 5000, 500, 1000);
    assert_eq!(s.execution_count(), 4);
}

#[test]
fn execution_count_exact_boundaries() {
    assert_eq!(sched(0, 1000, 100, 1000).execution_count(), 1);
    assert_eq!(sched(0, 1001, 100, 1000).execution_count(), 2);
    assert_eq!(sched(1000, 1000, 100, 1000).execution_count(), 1);
}

#[test]
fn execution_count_monotone_in_period() {
    let short = sched(1000, 5000, 500, 1000);
    let long = sched(1000, 9000, 500, 1000);
    assert!(long.execution_count() >= short.execution_count());
    assert_eq!(long.execution_count(), 8);
}

#[test]
fn execution_count_antitone_in_interval() {
    let fine = sched(1000, 5000, 500, 1000);
    let coarse = sched(1000, 5000, 500, 2000);
    assert!(coarse.execution_count() <= fine.execution_count());
    assert_eq!(coarse.execution_count(), 2);
}

#[test]
fn fits_disjoint_ranges_always_succeeds() {
    let a = sched(1000, 5000, 500, 1000);
    let b = sched(5000, 9000, 999, 1000);
    assert_eq!(a.fits(0, &b, 0), Ok(()));
    assert_eq!(b.fits(0, &a, 0), Ok(()));
    // even with delays that would otherwise collide
    assert_eq!(a.fits(4500, &b, 0), Ok(()));
}

#[test]
fn fits_interleaved_executions_succeed() {
    let a = sched(1000, 5000, 500, 1000);
    let b = sched(1500, 5500, 400, 1000);
    assert_eq!(a.fits(0, &b, 0), Ok(()));
    assert_eq!(b.fits(0, &a, 0), Ok(()));
}

#[test]
fn fits_rejects_overlapping_executions() {
    let a = sched(1000, 5000, 500, 1000);
    let c = sched(1200, 2200, 100, 1000);
    assert_eq!(a.fits(0, &c, 0), Err(Error::ScheduleOverlapInMatch));
    assert_eq!(c.fits(0, &a, 0), Err(Error::ScheduleOverlapInMatch));
}

#[test]
fn fits_rejects_identical_schedules() {
    let a = sched(1000, 5000, 500, 1000);
    assert_eq!(a.fits(0, &a, 0), Err(Error::ScheduleOverlapInMatch));
}

#[test]
fn fits_delay_moves_executions_into_gaps() {
    let a = sched(1000, 5000, 500, 1000);
    // the same cadence, delayed by half an interval, lands in the gaps
    assert_eq!(a.fits(0, &a, 500), Ok(()));
}

#[test]
fn execution_starts_enumerates_the_cadence() {
    let s = sched(1000, 5000, 500, 1000);
    assert_eq!(s.execution_starts(0), Ok(vec![1000, 2000, 3000, 4000]));
    assert_eq!(s.execution_starts(250), Ok(vec![1250, 2250, 3250, 4250]));
    let near_limit = sched(u64::MAX - 10, u64::MAX, 2, 4);
    assert_eq!(near_limit.execution_starts(20), Err(Error::CalculationOverflow));
}

#[test]
fn overlaps_window_hits_and_misses() {
    let s = sched(1000, 5000, 500, 1000);
    assert_eq!(s.overlaps(0, 1000, 1100), Ok(true));
    assert_eq!(s.overlaps(0, 1499, 1499), Ok(true));
    assert_eq!(s.overlaps(0, 1500, 1999), Ok(false));
    assert_eq!(s.overlaps(0, 6000, 7000), Ok(false));
    assert_eq!(s.overlaps(0, 0, 999), Ok(false));
    assert_eq!(s.overlaps(0, 0, 1000), Ok(true));
}

#[test]
fn overlaps_respects_start_delay() {
    let s = sched(1000, 5000, 500, 1000);
    assert_eq!(s.overlaps(500, 1500, 1500), Ok(true));
    assert_eq!(s.overlaps(500, 1000, 1499), Ok(false));
}

#[test]
fn overlaps_reports_numeric_overflow() {
    let s = sched(u64::MAX - 10, u64::MAX, 5, 8);
    assert_eq!(s.overlaps(u64::MAX, 0, 10), Err(Error::CalculationOverflow));
}

#[test]
fn fits_reports_numeric_overflow_only_on_overlapping_ranges() {
    let a = sched(u64::MAX - 10, u64::MAX, 2, 4);
    let b = sched(u64::MAX - 8, u64::MAX, 2, 4);
    // the delayed executions of `a` run past the numeric range
    assert_eq!(a.fits(20, &b, 0), Err(Error::CalculationOverflow));
    // disjoint plain periods are accepted before any arithmetic
    let c = sched(0, 10, 2, 4);
    assert_eq!(a.fits(20, &c, 0), Ok(()));
}
