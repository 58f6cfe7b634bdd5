//! The vesting arithmetic as mathematics: what a schedule releases of an allotment
//! between the last claim and now, and when every step of that computation fits
//! the machine's integers.

use vstd::prelude::*;
use vstd::arithmetic::div_mod::{
    lemma_div_by_multiple, lemma_div_is_ordered, lemma_div_nonincreasing, lemma_div_pos_is_pos,
    lemma_remainder_lower,
};
use vstd::arithmetic::mul::{lemma_mul_inequality, lemma_mul_is_commutative};
use crate::decimal::{mul_floor, ratio_atomics, DECIMAL_FRACTIONAL};
use crate::schedule::{ratio_sum, valid_schedule};
use crate::state::DistributionSchedule;

verus! {

/// A segment contributes once it has started and as long as it had not ended
/// before the last claim.
pub open spec fn overlaps(seg: DistributionSchedule, last_claimed: int, now: int) -> bool {
    seg.start <= now && seg.end >= last_claimed
}

/// The share of `assigned` that the segment releases in all.
pub open spec fn segment_amount(seg: DistributionSchedule, assigned: int) -> int {
    mul_floor(assigned, seg.percent)
}

/// The seconds of the segment that lie between the last claim and now.
pub open spec fn elapsed_seconds(seg: DistributionSchedule, last_claimed: int, now: int) -> int {
    (if seg.end <= now { seg.end as int } else { now })
        - (if seg.start >= last_claimed { seg.start as int } else { last_claimed })
}

/// What the segment releases per second, in atomic units.
pub open spec fn rate_per_second(seg: DistributionSchedule, assigned: int) -> int {
    ratio_atomics(segment_amount(seg, assigned), seg.end - seg.start)
}

/// What one segment contributes.
pub open spec fn segment_vested(
    seg: DistributionSchedule,
    assigned: int,
    last_claimed: int,
    now: int,
) -> int {
    if !overlaps(seg, last_claimed, now) {
        0
    } else if seg.start == seg.end {
        segment_amount(seg, assigned)
    } else {
        elapsed_seconds(seg, last_claimed, now) * rate_per_second(seg, assigned) / (
        DECIMAL_FRACTIONAL as int)
    }
}

/// The contributions of all segments, added up.
pub open spec fn vested_sum(
    schedule: Seq<DistributionSchedule>,
    assigned: int,
    last_claimed: int,
    now: int,
) -> int
    decreases schedule.len(),
{
    if schedule.len() == 0 {
        0
    } else {
        vested_sum(schedule.drop_last(), assigned, last_claimed, now) + segment_vested(
            schedule.last(),
            assigned,
            last_claimed,
            now,
        )
    }
}

/// The end of the segment that stands last in the schedule, whether or not it
/// contributes; 0 for a schedule without segments.
pub open spec fn schedule_end(schedule: Seq<DistributionSchedule>) -> int {
    if schedule.len() == 0 {
        0
    } else {
        schedule.last().end as int
    }
}

/// The claimable amount. Once the last segment has ended it is all that is left of
/// the allotment, whatever the segments' rounding lost; before that it is the sum
/// of the segments' contributions.
pub open spec fn claimable_amount(
    schedule: Seq<DistributionSchedule>,
    assigned: int,
    claimed: int,
    last_claimed: int,
    now: int,
) -> int {
    if schedule_end(schedule) <= now {
        assigned - claimed
    } else {
        vested_sum(schedule, assigned, last_claimed, now)
    }
}

/// Every intermediate value of one segment's contribution fits its integer type.
pub open spec fn segment_representable(
    seg: DistributionSchedule,
    assigned: int,
    last_claimed: int,
    now: int,
) -> bool {
    overlaps(seg, last_claimed, now) ==> {
        &&& segment_amount(seg, assigned) <= u128::MAX
        &&& seg.start != seg.end ==> {
            &&& 0 <= elapsed_seconds(seg, last_claimed, now)
            &&& seg.start < seg.end
            &&& rate_per_second(seg, assigned) <= u128::MAX
            &&& segment_vested(seg, assigned, last_claimed, now) <= u128::MAX
        }
    }
}

/// Segment `i` is representable, and so is the running total after it.
pub open spec fn step_representable(
    schedule: Seq<DistributionSchedule>,
    i: int,
    assigned: int,
    last_claimed: int,
    now: int,
) -> bool {
    &&& segment_representable(schedule[i], assigned, last_claimed, now)
    &&& vested_sum(schedule.take(i + 1), assigned, last_claimed, now) <= u128::MAX
}

/// The claimable amount can be computed in 128 bits: every step is representable
/// and, once the schedule has ended, no more was claimed than was assigned.
pub open spec fn claimable_representable(
    schedule: Seq<DistributionSchedule>,
    assigned: int,
    claimed: int,
    last_claimed: int,
    now: int,
) -> bool {
    &&& forall|i: int|
        0 <= i < schedule.len() ==> #[trigger] step_representable(
            schedule,
            i,
            assigned,
            last_claimed,
            now,
        )
    &&& schedule_end(schedule) <= now ==> claimed <= assigned
}

/// No segment starts after it ends.
pub open spec fn segments_forward(schedule: Seq<DistributionSchedule>) -> bool {
    forall|i: int| 0 <= i < schedule.len() ==> (#[trigger] schedule[i]).start <= schedule[i].end
}

proof fn lemma_segment_amount_nonnegative(seg: DistributionSchedule, assigned: int)
    requires
        0 <= assigned,
    ensures
        0 <= segment_amount(seg, assigned),
{
    assert(0 <= assigned * seg.percent.atomics) by (nonlinear_arith)
        requires
            0 <= assigned,
            0 <= seg.percent.atomics,
    ;
}

proof fn lemma_rate_nonnegative(seg: DistributionSchedule, assigned: int)
    requires
        0 <= assigned,
        seg.start < seg.end,
    ensures
        0 <= rate_per_second(seg, assigned),
{
    lemma_segment_amount_nonnegative(seg, assigned);
    let total = segment_amount(seg, assigned);
    assert(0 <= total * DECIMAL_FRACTIONAL) by (nonlinear_arith)
        requires
            0 <= total,
    ;
    lemma_div_pos_is_pos(total * DECIMAL_FRACTIONAL, seg.end - seg.start);
}

/// A segment's contribution is not negative and does not shrink as time goes on.
proof fn lemma_segment_vested_monotonic(
    seg: DistributionSchedule,
    assigned: int,
    last_claimed: int,
    now1: int,
    now2: int,
)
    requires
        0 <= assigned,
        seg.start <= seg.end,
        last_claimed <= now1 <= now2,
    ensures
        0 <= segment_vested(seg, assigned, last_claimed, now1) <= segment_vested(
            seg,
            assigned,
            last_claimed,
            now2,
        ),
{
    lemma_segment_amount_nonnegative(seg, assigned);
    if seg.start < seg.end {
        lemma_rate_nonnegative(seg, assigned);
        let rate = rate_per_second(seg, assigned);
        if overlaps(seg, last_claimed, now1) {
            let e1 = elapsed_seconds(seg, last_claimed, now1);
            let e2 = elapsed_seconds(seg, last_claimed, now2);
            lemma_mul_inequality(0, e1, rate);
            lemma_mul_inequality(e1, e2, rate);
        } else if overlaps(seg, last_claimed, now2) {
            let e2 = elapsed_seconds(seg, last_claimed, now2);
            lemma_mul_inequality(0, e2, rate);
        }
    }
}

/// A segment never contributes more than its share of the allotment.
proof fn lemma_segment_vested_within_amount(
    seg: DistributionSchedule,
    assigned: int,
    last_claimed: int,
    now: int,
)
    requires
        0 <= assigned,
        seg.start <= seg.end,
        last_claimed <= now,
    ensures
        segment_vested(seg, assigned, last_claimed, now) <= segment_amount(seg, assigned),
{
    lemma_segment_amount_nonnegative(seg, assigned);
    if overlaps(seg, last_claimed, now) && seg.start < seg.end {
        lemma_rate_nonnegative(seg, assigned);
        let total = segment_amount(seg, assigned);
        let rate = rate_per_second(seg, assigned);
        let duration = seg.end - seg.start;
        let elapsed = elapsed_seconds(seg, last_claimed, now);
        let one = DECIMAL_FRACTIONAL as int;
        assert(0 <= total * one) by (nonlinear_arith)
            requires
                0 <= total,
                0 < one,
        ;
        lemma_mul_inequality(elapsed, duration, rate);
        lemma_remainder_lower(total * one, duration);
        lemma_mul_is_commutative(duration, rate);
        assert(elapsed * rate <= total * one);
        lemma_div_is_ordered(elapsed * rate, total * one, one);
        lemma_div_by_multiple(total, one);
    }
}

/// The segments' contributions add up to no more than the part of the allotment
/// that their ratios add up to.
proof fn lemma_vested_sum_within_share(
    schedule: Seq<DistributionSchedule>,
    assigned: int,
    last_claimed: int,
    now: int,
)
    requires
        0 <= assigned,
        segments_forward(schedule),
        last_claimed <= now,
    ensures
        0 <= vested_sum(schedule, assigned, last_claimed, now) <= assigned * ratio_sum(schedule)
            / (DECIMAL_FRACTIONAL as int),
        0 <= ratio_sum(schedule),
    decreases schedule.len(),
{
    if schedule.len() > 0 {
        let front = schedule.drop_last();
        let seg = schedule.last();
        assert forall|i: int| 0 <= i < front.len() implies (#[trigger] front[i]).start
            <= front[i].end by {
            assert(front[i] == schedule[i]);
        }
        lemma_vested_sum_within_share(front, assigned, last_claimed, now);
        lemma_segment_vested_monotonic(seg, assigned, last_claimed, now, now);
        lemma_segment_vested_within_amount(seg, assigned, last_claimed, now);
        let one = DECIMAL_FRACTIONAL as int;
        let x = assigned * ratio_sum(front);
        let y = assigned * seg.percent.atomics;
        assert(assigned * ratio_sum(schedule) == x + y) by (nonlinear_arith)
            requires
                ratio_sum(schedule) == ratio_sum(front) + seg.percent.atomics,
                x == assigned * ratio_sum(front),
                y == assigned * seg.percent.atomics,
        ;
        assert(x / one + y / one <= (x + y) / one);
    } else {
        assert(assigned * 0 == 0);
    }
}

/// The sum of the contributions does not shrink as time goes on.
proof fn lemma_vested_sum_monotonic(
    schedule: Seq<DistributionSchedule>,
    assigned: int,
    last_claimed: int,
    now1: int,
    now2: int,
)
    requires
        0 <= assigned,
        segments_forward(schedule),
        last_claimed <= now1 <= now2,
    ensures
        vested_sum(schedule, assigned, last_claimed, now1) <= vested_sum(
            schedule,
            assigned,
            last_claimed,
            now2,
        ),
    decreases schedule.len(),
{
    if schedule.len() > 0 {
        let front = schedule.drop_last();
        assert forall|i: int| 0 <= i < front.len() implies (#[trigger] front[i]).start
            <= front[i].end by {
            assert(front[i] == schedule[i]);
        }
        lemma_vested_sum_monotonic(front, assigned, last_claimed, now1, now2);
        lemma_segment_vested_monotonic(schedule.last(), assigned, last_claimed, now1, now2);
    }
}

/// Under a valid schedule the segments never release more than the allotment,
/// whatever their rounding.
pub proof fn lemma_vested_within_allotment(
    schedule: Seq<DistributionSchedule>,
    assigned: u128,
    last_claimed: u64,
    now: u64,
)
    requires
        valid_schedule(schedule),
        last_claimed <= now,
    ensures
        0 <= vested_sum(schedule, assigned as int, last_claimed as int, now as int) <= assigned,
{
    lemma_vested_sum_within_share(schedule, assigned as int, last_claimed as int, now as int);
    lemma_div_by_multiple(assigned as int, DECIMAL_FRACTIONAL as int);
}

/// The claimable amount does not shrink as time goes on, the allotment, the
/// schedule, the claimed amount and the time of the last claim being fixed.
///
/// One case is left out. Where the schedule ends after `now1` and no later than
/// `now2`, the amount falls back from the sum of the segments to what is left of
/// the allotment; it shrinks there exactly when the segments had released more
/// than that by `now1`.
pub proof fn lemma_claimable_monotonic(
    schedule: Seq<DistributionSchedule>,
    assigned: u128,
    claimed: u128,
    last_claimed: u64,
    now1: u64,
    now2: u64,
)
    requires
        valid_schedule(schedule),
        last_claimed <= now1 <= now2,
        now1 < schedule_end(schedule) <= now2 ==> vested_sum(
            schedule,
            assigned as int,
            last_claimed as int,
            now1 as int,
        ) <= assigned - claimed,
    ensures
        claimable_amount(
            schedule,
            assigned as int,
            claimed as int,
            last_claimed as int,
            now1 as int,
        ) <= claimable_amount(
            schedule,
            assigned as int,
            claimed as int,
            last_claimed as int,
            now2 as int,
        ),
{
    lemma_vested_sum_monotonic(
        schedule,
        assigned as int,
        last_claimed as int,
        now1 as int,
        now2 as int,
    );
}

/// For an account that has claimed nothing yet, the claimable amount does not
/// shrink as time goes on.
pub proof fn lemma_unclaimed_monotonic(
    schedule: Seq<DistributionSchedule>,
    assigned: u128,
    last_claimed: u64,
    now1: u64,
    now2: u64,
)
    requires
        valid_schedule(schedule),
        last_claimed <= now1 <= now2,
    ensures
        claimable_amount(schedule, assigned as int, 0, last_claimed as int, now1 as int)
            <= claimable_amount(schedule, assigned as int, 0, last_claimed as int, now2 as int),
{
    lemma_vested_within_allotment(schedule, assigned, last_claimed, now1);
    lemma_claimable_monotonic(schedule, assigned, 0, last_claimed, now1, now2);
}

/// The ratios in front of position `k` add up to no more than all ratios do, and no
/// single ratio is more than the sum of all.
proof fn lemma_ratio_sum_prefix(schedule: Seq<DistributionSchedule>, k: int)
    requires
        0 <= k <= schedule.len(),
    ensures
        0 <= ratio_sum(schedule.take(k)) <= ratio_sum(schedule),
        k < schedule.len() ==> schedule[k].percent.atomics <= ratio_sum(schedule),
    decreases schedule.len(),
{
    if k == schedule.len() {
        assert(schedule.take(k) == schedule);
        if k > 0 {
            lemma_ratio_sum_prefix(schedule.drop_last(), k - 1);
        }
    } else {
        let front = schedule.drop_last();
        assert(front.take(k) == schedule.take(k));
        lemma_ratio_sum_prefix(front, k);
        if k < front.len() {
            assert(front[k] == schedule[k]);
        }
    }
}

/// Under a valid schedule the running total after any segment is within the
/// allotment.
proof fn lemma_running_total_within_allotment(
    schedule: Seq<DistributionSchedule>,
    i: int,
    assigned: int,
    last_claimed: int,
    now: int,
)
    requires
        valid_schedule(schedule),
        0 <= i < schedule.len(),
        0 <= assigned,
        last_claimed <= now,
    ensures
        0 <= vested_sum(schedule.take(i + 1), assigned, last_claimed, now) <= assigned,
{
    let one = DECIMAL_FRACTIONAL as int;
    let front = schedule.take(i + 1);
    assert forall|j: int| 0 <= j < front.len() implies (#[trigger] front[j]).start
        <= front[j].end by {
        assert(front[j] == schedule[j]);
    }
    lemma_vested_sum_within_share(front, assigned, last_claimed, now);
    lemma_ratio_sum_prefix(schedule, i + 1);
    lemma_mul_inequality(ratio_sum(front), one, assigned);
    lemma_mul_is_commutative(ratio_sum(front), assigned);
    lemma_mul_is_commutative(one, assigned);
    lemma_div_is_ordered(assigned * ratio_sum(front), assigned * one, one);
    lemma_div_by_multiple(assigned, one);
}

/// In a valid schedule no segment ends after the last one.
proof fn lemma_ends_within_schedule(schedule: Seq<DistributionSchedule>, i: int)
    requires
        valid_schedule(schedule),
        0 <= i < schedule.len(),
    ensures
        schedule[i].end <= schedule_end(schedule),
    decreases schedule.len() - i,
{
    if i < schedule.len() - 1 {
        lemma_ends_within_schedule(schedule, i + 1);
        assert(schedule[i + 1].start >= schedule[i].end);
        assert(schedule[i + 1].start <= schedule[i + 1].end);
    }
}

/// After a claim at or after the end of a valid schedule, every later claim can
/// be computed too: where the amount was representable at `now`, it is
/// representable at any later time for the account as the claim leaves it, with
/// all of the allotment claimed and `now` as the time of the last claim.
pub proof fn lemma_settled_account_is_representable(
    schedule: Seq<DistributionSchedule>,
    assigned: u128,
    claimed: u128,
    last_claimed: u64,
    now: u64,
    later: u64,
)
    requires
        valid_schedule(schedule),
        last_claimed <= now <= later,
        schedule_end(schedule) <= now,
        claimable_representable(
            schedule,
            assigned as int,
            claimed as int,
            last_claimed as int,
            now as int,
        ),
    ensures
        claimable_representable(
            schedule,
            assigned as int,
            assigned as int,
            now as int,
            later as int,
        ),
{
    let allotment = assigned as int;
    assert forall|i: int| 0 <= i < schedule.len() implies #[trigger] step_representable(
        schedule,
        i,
        allotment,
        now as int,
        later as int,
    ) by {
        let seg = schedule[i];
        lemma_ends_within_schedule(schedule, i);
        assert(step_representable(schedule, i, allotment, last_claimed as int, now as int));
        if overlaps(seg, now as int, later as int) && seg.start != seg.end {
            assert(elapsed_seconds(seg, now as int, later as int) == 0);
            assert(0 * rate_per_second(seg, allotment) == 0);
        }
        lemma_running_total_within_allotment(schedule, i, allotment, now as int, later as int);
    }
}

/// When the claimable amount is sure to be computed: under a valid schedule, for a
/// time that is not before the last claim and an account that has claimed no more
/// than it was assigned, every allotment below 2^128 / 10^18 is representable.
pub proof fn lemma_small_allotment_is_representable(
    schedule: Seq<DistributionSchedule>,
    assigned: u128,
    claimed: u128,
    last_claimed: u64,
    now: u64,
)
    requires
        valid_schedule(schedule),
        last_claimed <= now,
        claimed <= assigned,
        assigned * DECIMAL_FRACTIONAL <= u128::MAX,
    ensures
        claimable_representable(
            schedule,
            assigned as int,
            claimed as int,
            last_claimed as int,
            now as int,
        ),
{
    let one = DECIMAL_FRACTIONAL as int;
    let allotment = assigned as int;
    assert forall|i: int| 0 <= i < schedule.len() implies #[trigger] step_representable(
        schedule,
        i,
        allotment,
        last_claimed as int,
        now as int,
    ) by {
        let seg = schedule[i];
        let total = segment_amount(seg, allotment);
        lemma_ratio_sum_prefix(schedule, i);
        lemma_segment_amount_nonnegative(seg, allotment);
        lemma_mul_inequality(seg.percent.atomics as int, one, allotment);
        lemma_mul_is_commutative(seg.percent.atomics as int, allotment);
        lemma_mul_is_commutative(one, allotment);
        lemma_div_is_ordered(allotment * seg.percent.atomics, allotment * one, one);
        lemma_div_by_multiple(allotment, one);
        assert(total <= allotment);
        if seg.start < seg.end {
            assert(total * one <= allotment * one) by (nonlinear_arith)
                requires
                    total <= allotment,
                    0 < one,
            ;
            assert(0 <= total * one) by (nonlinear_arith)
                requires
                    0 <= total,
                    0 < one,
            ;
            lemma_div_nonincreasing(total * one, seg.end - seg.start);
        }
        lemma_segment_vested_within_amount(seg, allotment, last_claimed as int, now as int);
        lemma_running_total_within_allotment(
            schedule,
            i,
            allotment,
            last_claimed as int,
            now as int,
        );
    }
}

/// Once the schedule has ended, a claim releases exactly what is left of the
/// allotment, and after it nothing is left to claim.
pub proof fn lemma_full_vesting_exact(
    schedule: Seq<DistributionSchedule>,
    assigned: u128,
    claimed: u128,
    last_claimed: u64,
    now: u64,
    later: u64,
)
    requires
        schedule_end(schedule) <= now <= later,
        claimed <= assigned,
    ensures
        claimed + claimable_amount(
            schedule,
            assigned as int,
            claimed as int,
            last_claimed as int,
            now as int,
        ) == assigned,
        claimable_amount(schedule, assigned as int, assigned as int, now as int, later as int)
            == 0,
{
}

} // verus!
