//! The rules of a distribution schedule, and the check that finds the first rule
//! a schedule breaks.

use vstd::prelude::*;
use crate::decimal::{Decimal, DECIMAL_FRACTIONAL};
use crate::error::ScheduleError;
use crate::state::DistributionSchedule;

verus! {

/// The segments that a list of `(start, end, ratio)` triples stands for.
pub open spec fn segments_of(raw: Seq<(u64, u64, Decimal)>) -> Seq<DistributionSchedule> {
    Seq::new(
        raw.len(),
        |i: int| (DistributionSchedule { start: raw[i].0, end: raw[i].1, percent: raw[i].2 }),
    )
}

/// The ratios of all segments added up, in atomic units.
pub open spec fn ratio_sum(schedule: Seq<DistributionSchedule>) -> int
    decreases schedule.len(),
{
    if schedule.len() == 0 {
        0
    } else {
        ratio_sum(schedule.drop_last()) + schedule.last().percent.atomics
    }
}

/// A schedule is valid when it has a segment, no segment starts after it ends or
/// releases nothing, each segment starts no earlier than the one in front of it
/// ends, and the ratios add up to exactly one.
pub open spec fn valid_schedule(schedule: Seq<DistributionSchedule>) -> bool {
    &&& schedule.len() > 0
    &&& forall|i: int|
        0 <= i < schedule.len() ==> (#[trigger] schedule[i]).start <= schedule[i].end
            && schedule[i].percent.atomics > 0
    &&& forall|i: int|
        0 < i < schedule.len() ==> (#[trigger] schedule[i]).start >= schedule[i - 1].end
    &&& ratio_sum(schedule) == DECIMAL_FRACTIONAL
}

/// The rule that segment `i` breaks by itself or against the segment in front of
/// it, if any. Of several, the first in this order counts.
pub open spec fn segment_violation(schedule: Seq<DistributionSchedule>, i: int) -> Option<
    ScheduleError,
> {
    if schedule[i].start > schedule[i].end {
        Some(ScheduleError::StartAfterEnd { index: i as usize })
    } else if schedule[i].percent.atomics == 0 {
        Some(ScheduleError::ZeroRatio { index: i as usize })
    } else if i > 0 && schedule[i].start < schedule[i - 1].end {
        Some(ScheduleError::Overlap { index: i as usize })
    } else {
        None
    }
}

/// The first rule broken among the segments in front of position `n`, if any.
pub open spec fn violation_before(schedule: Seq<DistributionSchedule>, n: int) -> Option<
    ScheduleError,
>
    decreases n,
{
    if n <= 0 {
        None
    } else {
        match violation_before(schedule, n - 1) {
            Some(error) => Some(error),
            None => segment_violation(schedule, n - 1),
        }
    }
}

/// What a schedule is refused for, if it is: its emptiness, else the violation of
/// the first segment that has one, else the sum of the ratios.
pub open spec fn schedule_check(schedule: Seq<DistributionSchedule>) -> Result<(), ScheduleError> {
    if schedule.len() == 0 {
        Err(ScheduleError::Empty)
    } else {
        match violation_before(schedule, schedule.len() as int) {
            Some(error) => Err(error),
            None => if ratio_sum(schedule) != DECIMAL_FRACTIONAL {
                Err(ScheduleError::SumNotOne)
            } else {
                Ok(())
            },
        }
    }
}

/// Where no rule is broken in front of `n`, no segment there breaks one.
pub proof fn lemma_no_violation_before(schedule: Seq<DistributionSchedule>, n: int, j: int)
    requires
        violation_before(schedule, n) is None,
        0 <= j < n,
    ensures
        segment_violation(schedule, j) is None,
    decreases n,
{
    if j < n - 1 {
        lemma_no_violation_before(schedule, n - 1, j);
    }
}

/// Where a rule is broken in front of `n`, some segment there breaks one.
pub proof fn lemma_violation_before(schedule: Seq<DistributionSchedule>, n: int) -> (j: int)
    requires
        violation_before(schedule, n) is Some,
    ensures
        0 <= j < n,
        segment_violation(schedule, j) is Some,
    decreases n,
{
    if violation_before(schedule, n - 1) is Some {
        lemma_violation_before(schedule, n - 1)
    } else {
        n - 1
    }
}

/// The check passes exactly the valid schedules.
pub proof fn lemma_check_accepts_valid(schedule: Seq<DistributionSchedule>)
    ensures
        schedule_check(schedule) is Ok <==> valid_schedule(schedule),
{
    let n = schedule.len() as int;
    if schedule_check(schedule) is Ok {
        assert forall|i: int| 0 <= i < n implies (#[trigger] schedule[i]).start
            <= schedule[i].end && schedule[i].percent.atomics > 0 by {
            lemma_no_violation_before(schedule, n, i);
        }
        assert forall|i: int| 0 < i < n implies (#[trigger] schedule[i]).start >= schedule[i
            - 1].end by {
            lemma_no_violation_before(schedule, n, i);
        }
    } else if n > 0 && violation_before(schedule, n) is Some {
        let j = lemma_violation_before(schedule, n);
        if valid_schedule(schedule) {
            assert(schedule[j].start <= schedule[j].end);
        }
    }
}

/// Checks a schedule given as `(start, end, ratio)` triples, segment by segment,
/// and names the first rule that is broken.
pub fn validate_distribution_schedule(schedule: &Vec<(u64, u64, Decimal)>) -> (res: Result<
    (),
    ScheduleError,
>)
    ensures
        res == schedule_check(segments_of(schedule@)),
        res is Ok <==> valid_schedule(segments_of(schedule@)),
{
    let ghost segments = segments_of(schedule@);
    proof {
        lemma_check_accepts_valid(segments);
    }
    let n: usize = schedule.len();
    if n == 0 {
        return Err(ScheduleError::Empty);
    }
    // The running sum of the ratios, as long as it fits; `exceeded` once it does not.
    let mut sum_of_ratio: Decimal = Decimal::zero();
    let mut exceeded: bool = false;
    let mut last_end: u64 = 0;
    let mut i: usize = 0;
    while i < n
        invariant
            i <= n,
            n == schedule@.len(),
            n > 0,
            segments == segments_of(schedule@),
            violation_before(segments, i as int) is None,
            i > 0 ==> last_end == segments[i - 1].end,
            !exceeded ==> sum_of_ratio.atomics == ratio_sum(segments.take(i as int)),
            exceeded ==> ratio_sum(segments.take(i as int)) > u128::MAX,
        decreases n - i,
    {
        let (start, end, ratio) = schedule[i];
        assert(segments[i as int] == (DistributionSchedule { start, end, percent: ratio }));
        assert(segments.take(i + 1).drop_last() == segments.take(i as int));
        assert(segments.take(i + 1).last() == segments[i as int]);
        let violation: Option<ScheduleError> = if start > end {
            Some(ScheduleError::StartAfterEnd { index: i })
        } else if ratio.is_zero() {
            Some(ScheduleError::ZeroRatio { index: i })
        } else if i > 0 && start < last_end {
            Some(ScheduleError::Overlap { index: i })
        } else {
            None
        };
        assert(violation == segment_violation(segments, i as int));
        if let Some(error) = violation {
            proof {
                lemma_violation_persists(segments, i + 1, n as int);
            }
            return Err(error);
        }
        last_end = end;
        if !exceeded {
            match sum_of_ratio.checked_add(ratio) {
                Some(sum) => {
                    sum_of_ratio = sum;
                },
                None => {
                    exceeded = true;
                },
            }
        }
        i += 1;
    }
    assert(segments.take(n as int) == segments);
    if exceeded || sum_of_ratio != Decimal::one() {
        Err(ScheduleError::SumNotOne)
    } else {
        Ok(())
    }
}

/// The first broken rule in front of `m` is still the first in front of any later
/// position.
pub proof fn lemma_violation_persists(schedule: Seq<DistributionSchedule>, m: int, n: int)
    requires
        violation_before(schedule, m) is Some,
        m <= n,
    ensures
        violation_before(schedule, n) == violation_before(schedule, m),
    decreases n - m,
{
    if m < n {
        lemma_violation_persists(schedule, m, n - 1);
    }
}

} // verus!
