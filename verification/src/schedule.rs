//! The schedule engine: pure temporal math on recurring execution plans —
//! execution enumeration, report-window overlap, and conflict detection
//! between two plans committed to the same provider.

use vstd::prelude::*;
use vstd::arithmetic::div_mod::lemma_fundamental_div_mod;
use vstd::arithmetic::mul::lemma_mul_inequality;
use crate::types::{Schedule, Error};

verus! {

impl Schedule {
    /// A schedule as registration admits it: executions are shorter than the
    /// repeat interval and the plan does not end before it starts.
    pub open spec fn wf(self) -> bool {
        &&& 0 < self.duration < self.interval
        &&& self.start_time <= self.end_time
    }

    /// How many executions the plan contains: one at `start_time`, then one
    /// every `interval` until `end_time`. Always at least one.
    pub open spec fn execution_count_spec(self) -> int {
        let diff: int = if self.end_time > self.start_time {
            self.end_time - self.start_time - 1
        } else {
            0
        };
        if self.interval == 0 {
            1
        } else {
            diff / (self.interval as int) + 1
        }
    }

    /// Start timestamp of execution `k`, offset by a provider's start delay.
    pub open spec fn exec_start_at(self, start_delay: u64, k: int) -> int {
        self.start_time + start_delay + k * self.interval
    }

    /// Whether some execution window `[start, start + duration)` intersects
    /// the closed window `[lo, hi]`.
    pub open spec fn overlaps_spec(self, start_delay: u64, lo: u64, hi: u64) -> bool {
        self.duration > 0 && exists|k: int|
            0 <= k < self.execution_count_spec()
            && self.exec_start_at(start_delay, k) <= hi
            && lo < self.exec_start_at(start_delay, k) + self.duration
    }

    /// Whether enumerating the delayed executions would exceed the numeric
    /// range: the end of the last execution does not fit in 64 bits.
    pub open spec fn iter_overflows(self, start_delay: u64) -> bool {
        self.start_time + start_delay + (self.execution_count_spec() - 1) * self.interval
            + self.duration > u64::MAX
    }

    /// Whether the plain (undelayed) `[start_time, end_time)` periods of two
    /// plans do not intersect.
    pub open spec fn ranges_disjoint(self, other: Schedule) -> bool {
        self.start_time >= other.end_time || self.end_time <= other.start_time
    }

    /// Whether some delayed execution window `[start, start + duration)` of
    /// one plan intersects one of the other. An empty window (zero duration)
    /// conflicts only when it lies strictly inside another window.
    pub open spec fn conflicts_with(self, start_delay: u64, other: Schedule, other_delay: u64)
        -> bool
    {
        exists|j: int, k: int|
            0 <= j < self.execution_count_spec()
            && 0 <= k < other.execution_count_spec()
            && self.exec_start_at(start_delay, j)
                < other.exec_start_at(other_delay, k) + other.duration
            && other.exec_start_at(other_delay, k)
                < self.exec_start_at(start_delay, j) + self.duration
    }

    /// Whether a new plan may be committed to a provider next to an existing
    /// one: either the plain periods are disjoint, or both delayed execution
    /// sequences can be enumerated without numeric overflow and no two
    /// windows intersect.
    pub open spec fn fits_ok(self, start_delay: u64, other: Schedule, other_delay: u64) -> bool {
        self.ranges_disjoint(other)
        || (!self.iter_overflows(start_delay)
            && !other.iter_overflows(other_delay)
            && !self.conflicts_with(start_delay, other, other_delay))
    }

    /// Number of executions between `start_time` and `end_time` given
    /// `interval`.
    pub fn execution_count(&self) -> (r: u64)
        ensures
            r as int == self.execution_count_spec(),
            r >= 1,
    {
        let diff: u64 = if self.end_time > self.start_time {
            self.end_time - self.start_time - 1
        } else {
            0
        };
        if self.interval == 0 {
            1
        } else {
            let q = diff / self.interval;
            assert(q <= diff) by (nonlinear_arith)
                requires q == diff as int / self.interval as int && self.interval >= 1
            {}
            q + 1
        }
    }

    /// First and last delayed execution start, with the guarantee that even
    /// the last execution's end fits in 64 bits.
    fn delayed_bounds(&self, start_delay: u64) -> (r: Result<(u64, u64), Error>)
        ensures
            r is Err <==> self.iter_overflows(start_delay),
            r is Err ==> r == Err::<(u64, u64), Error>(Error::CalculationOverflow),
            r matches Ok(p) ==> ({
                &&& p.0 == self.start_time + start_delay
                &&& p.1 == p.0 + (self.execution_count_spec() - 1) * self.interval
                &&& p.1 + self.duration <= u64::MAX
            }),
    {
        let count = self.execution_count();
        let span: u64 = if self.interval == 0 {
            0
        } else {
            let q = count - 1;
            proof {
                let diff: int = if self.end_time > self.start_time {
                    self.end_time - self.start_time - 1
                } else {
                    0
                };
                lemma_fundamental_div_mod(diff, self.interval as int);
                vstd::arithmetic::mul::lemma_mul_is_commutative(
                    self.interval as int, diff / (self.interval as int));
            }
            q * self.interval
        };
        assert(span == (self.execution_count_spec() - 1) * self.interval);
        let base = match self.start_time.checked_add(start_delay) {
            Some(b) => b,
            None => {
                return Err(Error::CalculationOverflow);
            },
        };
        let last = match base.checked_add(span) {
            Some(l) => l,
            None => {
                return Err(Error::CalculationOverflow);
            },
        };
        if last > u64::MAX - self.duration {
            return Err(Error::CalculationOverflow);
        }
        Ok((base, last))
    }

    /// True iff some execution of the delayed plan intersects `[lo, hi]`;
    /// fails with [`Error::CalculationOverflow`] iff enumerating the delayed
    /// executions exceeds the numeric range.
    pub fn overlaps(&self, start_delay: u64, lo: u64, hi: u64) -> (r: Result<bool, Error>)
        ensures
            r is Err <==> self.iter_overflows(start_delay),
            r is Err ==> r == Err::<bool, Error>(Error::CalculationOverflow),
            r matches Ok(b) ==> b == self.overlaps_spec(start_delay, lo, hi),
    {
        let count = self.execution_count();
        let span: u64 = if self.interval == 0 {
            0
        } else {
            let q = count - 1;
            proof {
                let diff: int = if self.end_time > self.start_time {
                    self.end_time - self.start_time - 1
                } else {
                    0
                };
                lemma_fundamental_div_mod(diff, self.interval as int);
                assert((self.interval as int) * (diff / (self.interval as int)) <= diff);
                vstd::arithmetic::mul::lemma_mul_is_commutative(
                    self.interval as int, diff / (self.interval as int));
            }
            q * self.interval
        };
        assert(span == (self.execution_count_spec() - 1) * self.interval);
        let base = match self.start_time.checked_add(start_delay) {
            Some(b) => b,
            None => {
                return Err(Error::CalculationOverflow);
            },
        };
        let last = match base.checked_add(span) {
            Some(l) => l,
            None => {
                return Err(Error::CalculationOverflow);
            },
        };
        let last_end = match last.checked_add(self.duration) {
            Some(l) => l,
            None => {
                return Err(Error::CalculationOverflow);
            },
        };
        if self.duration == 0 {
            return Ok(false);
        }
        if base > hi {
            // every execution starts at or after `base`
            assert forall|k: int| 0 <= k < self.execution_count_spec()
                implies self.exec_start_at(start_delay, k) > hi by {
                lemma_mul_inequality(0, k, self.interval as int);
            }
            return Ok(false);
        }
        if last_end <= lo {
            // every execution ends by `last_end`
            assert forall|k: int| 0 <= k < self.execution_count_spec()
                implies self.exec_start_at(start_delay, k) + self.duration <= lo by {
                lemma_mul_inequality(k, self.execution_count_spec() - 1, self.interval as int);
            }
            return Ok(false);
        }
        let mut k: u64 = 0;
        loop
            invariant
                0 <= k <= count,
                count as int == self.execution_count_spec(),
                base == self.start_time + start_delay,
                span == (count - 1) * self.interval,
                last == base + span,
                last_end == last + self.duration,
                self.duration > 0,
                forall|j: int| 0 <= j < k ==> !(self.exec_start_at(start_delay, j) <= hi
                    && lo < self.exec_start_at(start_delay, j) + self.duration),
            decreases count - k,
        {
            if k >= count {
                return Ok(false);
            }
            proof {
                lemma_mul_inequality(k as int, count - 1, self.interval as int);
            }
            let t = base + k * self.interval;
            assert(t == self.exec_start_at(start_delay, k as int));
            if t > hi {
                // later executions start no earlier
                assert forall|j: int| k <= j < self.execution_count_spec()
                    implies self.exec_start_at(start_delay, j) > hi by {
                    lemma_mul_inequality(k as int, j, self.interval as int);
                }
                return Ok(false);
            }
            if t + self.duration > lo {
                return Ok(true);
            }
            k = k + 1;
        }
    }

    /// The start timestamp of every execution of the delayed plan, in
    /// order; fails with [`Error::CalculationOverflow`] iff enumerating the
    /// delayed executions exceeds the numeric range.
    pub fn execution_starts(&self, start_delay: u64) -> (r: Result<Vec<u64>, Error>)
        ensures
            r is Err <==> self.iter_overflows(start_delay),
            r is Err ==> r == Err::<Vec<u64>, Error>(Error::CalculationOverflow),
            r matches Ok(v) ==> ({
                &&& v@.len() == self.execution_count_spec()
                &&& forall|k: int| 0 <= k < v@.len() ==> v@[k] == self.exec_start_at(
                    start_delay, k)
            }),
    {
        let count = self.execution_count();
        let (base, last) = match self.delayed_bounds(start_delay) {
            Ok(p) => p,
            Err(e) => {
                return Err(e);
            },
        };
        let mut starts: Vec<u64> = Vec::new();
        let mut k: u64 = 0;
        let mut cur = base;
        while k < count
            invariant
                k <= count,
                count as int == self.execution_count_spec(),
                base == self.start_time + start_delay,
                last == base + (count - 1) * self.interval,
                last + self.duration <= u64::MAX,
                k < count ==> cur == self.exec_start_at(start_delay, k as int),
                starts@.len() == k,
                forall|j: int| 0 <= j < k ==> starts@[j] == self.exec_start_at(start_delay, j),
            decreases count - k,
        {
            proof {
                lemma_mul_inequality(k as int, count - 1, self.interval as int);
            }
            starts.push(cur);
            k = k + 1;
            if k < count {
                proof {
                    lemma_mul_inequality(k as int, count - 1, self.interval as int);
                    assert((k as int) * self.interval
                        == (k as int - 1) * self.interval + self.interval) by (nonlinear_arith);
                }
                cur = cur + self.interval;
            }
        }
        Ok(starts)
    }

    /// Checks that this plan can be committed to a provider that already
    /// committed to `other`. Plans whose plain periods are disjoint are
    /// accepted at once, whatever their intervals and durations. Otherwise
    /// the two delayed execution sequences are merged in timestamp order,
    /// and any window starting before the previous one ended signals a
    /// conflict; numeric overflow while enumerating either sequence is
    /// reported as such, never swallowed.
    pub fn fits(&self, start_delay: u64, other: &Schedule, other_delay: u64) -> (r: Result<
        (),
        Error,
    >)
        requires
            self.wf(),
            other.wf(),
        ensures
            r is Ok <==> self.fits_ok(start_delay, *other, other_delay),
            r is Err ==> r == Err::<(), Error>(Error::CalculationOverflow)
                || r == Err::<(), Error>(Error::ScheduleOverlapInMatch),
            r == Err::<(), Error>(Error::ScheduleOverlapInMatch)
                ==> self.conflicts_with(start_delay, *other, other_delay),
            !self.ranges_disjoint(*other)
                && (self.iter_overflows(start_delay) || other.iter_overflows(other_delay))
                ==> r == Err::<(), Error>(Error::CalculationOverflow),
            r == Err::<(), Error>(Error::CalculationOverflow) ==> self.iter_overflows(start_delay)
                || other.iter_overflows(other_delay),
    {
        if self.start_time >= other.end_time || self.end_time <= other.start_time {
            return Ok(());
        }
        let (base_a, last_a) = match self.delayed_bounds(start_delay) {
            Ok(p) => p,
            Err(e) => {
                return Err(e);
            },
        };
        let (base_b, last_b) = match other.delayed_bounds(other_delay) {
            Ok(p) => p,
            Err(e) => {
                return Err(e);
            },
        };
        let ca = self.execution_count();
        let cb = other.execution_count();
        let mut ja: u64 = 0;
        let mut jb: u64 = 0;
        let mut cur_a = base_a;
        let mut cur_b = base_b;
        let mut prev_end: u64 = 0;
        loop
            invariant
                self.wf(),
                other.wf(),
                !self.ranges_disjoint(*other),
                !self.iter_overflows(start_delay),
                !other.iter_overflows(other_delay),
                ca as int == self.execution_count_spec(),
                cb as int == other.execution_count_spec(),
                ja <= ca,
                jb <= cb,
                base_a == self.start_time + start_delay,
                last_a == base_a + (ca - 1) * self.interval,
                last_a + self.duration <= u64::MAX,
                base_b == other.start_time + other_delay,
                last_b == base_b + (cb - 1) * other.interval,
                last_b + other.duration <= u64::MAX,
                ja < ca ==> cur_a == self.exec_start_at(start_delay, ja as int),
                jb < cb ==> cur_b == other.exec_start_at(other_delay, jb as int),
                ja < ca ==> forall|k: int| 0 <= k < jb
                    ==> other.exec_start_at(other_delay, k)
                        <= self.exec_start_at(start_delay, ja as int),
                jb < cb ==> forall|j: int| 0 <= j < ja
                    ==> self.exec_start_at(start_delay, j)
                        <= other.exec_start_at(other_delay, jb as int),
                forall|j: int| 0 <= j < ja
                    ==> self.exec_start_at(start_delay, j) + self.duration <= prev_end,
                forall|k: int| 0 <= k < jb
                    ==> other.exec_start_at(other_delay, k) + other.duration <= prev_end,
                (ja == 0 && jb == 0 && prev_end == 0) || (ja > 0 && prev_end
                    == self.exec_start_at(start_delay, ja as int - 1) + self.duration) || (jb > 0
                    && prev_end == other.exec_start_at(other_delay, jb as int - 1)
                    + other.duration),
                forall|j: int, k: int| 0 <= j < ja && 0 <= k < jb
                    ==> !(self.exec_start_at(start_delay, j)
                        < other.exec_start_at(other_delay, k) + other.duration
                        && other.exec_start_at(other_delay, k)
                            < self.exec_start_at(start_delay, j) + self.duration),
            decreases (ca - ja) + (cb - jb),
        {
            if ja >= ca && jb >= cb {
                assert(!self.conflicts_with(start_delay, *other, other_delay));
                return Ok(());
            }
            let take_a = if ja >= ca {
                false
            } else if jb >= cb {
                true
            } else {
                cur_a <= cur_b
            };
            if take_a {
                proof {
                    lemma_mul_inequality(ja as int, ca - 1, self.interval as int);
                }
                let s = cur_a;
                let e = s + self.duration;
                if prev_end > s {
                    proof {
                        if ja > 0 && prev_end == self.exec_start_at(start_delay, ja as int - 1)
                            + self.duration {
                            assert((ja as int) * self.interval
                                == (ja as int - 1) * self.interval + self.interval)
                                by (nonlinear_arith);
                            assert(false);
                        }
                        let k = jb as int - 1;
                        assert(other.exec_start_at(other_delay, k)
                            <= self.exec_start_at(start_delay, ja as int));
                        assert(self.exec_start_at(start_delay, ja as int)
                            < other.exec_start_at(other_delay, k) + other.duration
                            && other.exec_start_at(other_delay, k)
                                < self.exec_start_at(start_delay, ja as int) + self.duration);
                        assert(self.conflicts_with(start_delay, *other, other_delay));
                    }
                    return Err(Error::ScheduleOverlapInMatch);
                }
                proof {
                    assert((ja as int + 1) * self.interval
                        == (ja as int) * self.interval + self.interval) by (nonlinear_arith);
                }
                prev_end = e;
                ja = ja + 1;
                if ja < ca {
                    proof {
                        lemma_mul_inequality(ja as int, ca - 1, self.interval as int);
                    }
                    cur_a = cur_a + self.interval;
                }
            } else {
                proof {
                    lemma_mul_inequality(jb as int, cb - 1, other.interval as int);
                }
                let s = cur_b;
                let e = s + other.duration;
                if prev_end > s {
                    proof {
                        if jb > 0 && prev_end == other.exec_start_at(other_delay, jb as int - 1)
                            + other.duration {
                            assert((jb as int) * other.interval
                                == (jb as int - 1) * other.interval + other.interval)
                                by (nonlinear_arith);
                            assert(false);
                        }
                        let j = ja as int - 1;
                        assert(self.exec_start_at(start_delay, j)
                            <= other.exec_start_at(other_delay, jb as int));
                        assert(self.exec_start_at(start_delay, j)
                            < other.exec_start_at(other_delay, jb as int) + other.duration
                            && other.exec_start_at(other_delay, jb as int)
                                < self.exec_start_at(start_delay, j) + self.duration);
                        assert(self.conflicts_with(start_delay, *other, other_delay));
                    }
                    return Err(Error::ScheduleOverlapInMatch);
                }
                proof {
                    assert((jb as int + 1) * other.interval
                        == (jb as int) * other.interval + other.interval) by (nonlinear_arith);
                }
                prev_end = e;
                jb = jb + 1;
                if jb < cb {
                    proof {
                        lemma_mul_inequality(jb as int, cb - 1, other.interval as int);
                    }
                    cur_b = cur_b + other.interval;
                }
            }
        }
    }
}

/// Law: two plans whose plain `[start_time, end_time)` periods are disjoint
/// always fit together, whatever their intervals and durations.
pub proof fn lemma_fits_disjoint_ranges(a: Schedule, da: u64, b: Schedule, db: u64)
    requires
        a.ranges_disjoint(b),
    ensures
        a.fits_ok(da, b, db),
{
}

/// Law: for plans whose plain periods intersect and whose delayed execution
/// sequences stay in numeric range, fitting fails exactly when some execution
/// window of one plan intersects one of the other.
pub proof fn lemma_fits_overlapping_ranges(a: Schedule, da: u64, b: Schedule, db: u64)
    requires
        !a.ranges_disjoint(b),
        !a.iter_overflows(da),
        !b.iter_overflows(db),
    ensures
        a.fits_ok(da, b, db) <==> !a.conflicts_with(da, b, db),
{
}

/// Law: the execution count never decreases when the planned period grows,
/// the interval held fixed.
pub proof fn lemma_execution_count_monotonic_in_period(a: Schedule, b: Schedule)
    requires
        a.interval == b.interval,
        a.end_time - a.start_time <= b.end_time - b.start_time,
    ensures
        a.execution_count_spec() <= b.execution_count_spec(),
{
    let da: int = if a.end_time > a.start_time {
        a.end_time - a.start_time - 1
    } else {
        0
    };
    let db: int = if b.end_time > b.start_time {
        b.end_time - b.start_time - 1
    } else {
        0
    };
    assert(da <= db);
    if a.interval != 0 {
        vstd::arithmetic::div_mod::lemma_div_is_ordered(da, db, a.interval as int);
    }
}

/// Law: the execution count never increases when the repeat interval grows,
/// the planned period held fixed.
pub proof fn lemma_execution_count_antitone_in_interval(a: Schedule, b: Schedule)
    requires
        a.start_time == b.start_time,
        a.end_time == b.end_time,
        1 <= a.interval <= b.interval,
    ensures
        a.execution_count_spec() >= b.execution_count_spec(),
{
    let d: int = if a.end_time > a.start_time {
        a.end_time - a.start_time - 1
    } else {
        0
    };
    vstd::arithmetic::div_mod::lemma_div_is_ordered_by_denominator(
        d, a.interval as int, b.interval as int);
}

} // verus!
