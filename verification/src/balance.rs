//! Expected-duration calculator: the working time a period calls for,
//! from the weekly template, net of merged day-off calendars; and the
//! total recorded duration it is compared with.
//!
//! Durations are computed in half-second ticks internally so that a half
//! portion of an odd template duration stays exact, and truncated to
//! whole seconds only in the final result.

use crate::date::{
    day_in_range, local_date, spec_local_day, spec_weekday, valid_instant, valid_offset, Date,
    MAX_DAY_NUMBER, MIN_DAY_NUMBER,
};
use crate::types::{
    portion_order, spec_cal_portion, spec_portion_max, Config, DayOffEntry, DayPortion, FrameV,
    Frames, Holidays, SickDays, Timespan, Vacations, WorkingHours,
};
use crate::frames::{
    filter_frames, spec_clip_end, spec_clip_start, spec_filter_end, spec_filter_frames,
    spec_filter_project, spec_filter_start, spec_filter_tag, spec_keep_end, spec_keep_start,
};
use crate::period::{resolve_timespan, spec_resolve_timespan, PeriodArgs};
use crate::tracking::{spec_close_frame, with_current_frame};
use crate::types::State;
use vstd::arithmetic::div_mod::lemma_div_is_ordered;
use vstd::arithmetic::mul::lemma_mul_upper_bound;
use vstd::prelude::*;

verus! {

/// The more severe of two optional portions, where any portion dominates
/// none at all.
pub open spec fn spec_opt_portion_max(a: Option<DayPortion>, b: Option<DayPortion>) -> Option<
    DayPortion,
> {
    match (a, b) {
        (None, None) => None,
        (Some(x), None) => Some(x),
        (None, Some(y)) => Some(y),
        (Some(x), Some(y)) => Some(spec_portion_max(x, y)),
    }
}

/// The day-off portion for day `d` merged across the vacation, holiday
/// and sick-day calendars: the most severe portion any of them records.
pub open spec fn spec_merged_portion(
    v: Seq<(Date, DayOffEntry)>,
    h: Seq<(Date, DayOffEntry)>,
    s: Seq<(Date, DayOffEntry)>,
    d: int,
) -> Option<DayPortion> {
    spec_opt_portion_max(
        spec_opt_portion_max(spec_cal_portion(v, d), spec_cal_portion(h, d)),
        spec_cal_portion(s, d),
    )
}

/// The expected-time reduction for day `d`, in half-second ticks: the
/// template duration of its weekday scaled by the merged portion.
pub open spec fn spec_day_reduction(
    wh: WorkingHours,
    v: Seq<(Date, DayOffEntry)>,
    h: Seq<(Date, DayOffEntry)>,
    s: Seq<(Date, DayOffEntry)>,
    d: int,
) -> int {
    let tmpl = wh.spec_for_weekday(spec_weekday(d));
    match spec_merged_portion(v, h, s, d) {
        None => 0,
        Some(DayPortion::Full) => 2 * tmpl,
        Some(DayPortion::Half) => tmpl,
    }
}

/// Sum of the day reductions over the days `lo..=hi`, in ticks.
pub open spec fn spec_reduction_sum(
    wh: WorkingHours,
    v: Seq<(Date, DayOffEntry)>,
    h: Seq<(Date, DayOffEntry)>,
    s: Seq<(Date, DayOffEntry)>,
    lo: int,
    hi: int,
) -> int
    decreases hi + 1 - lo,
{
    if lo > hi {
        0
    } else {
        spec_reduction_sum(wh, v, h, s, lo, hi - 1) + spec_day_reduction(wh, v, h, s, hi)
    }
}

/// Sum of the template durations of the last `k` days ending at day
/// `end`, in seconds.
pub open spec fn spec_tail_sum(wh: WorkingHours, end: int, k: int) -> int
    decreases k,
{
    if k <= 0 {
        0
    } else {
        spec_tail_sum(wh, end - 1, k - 1) + wh.spec_for_weekday(spec_weekday(end))
    }
}

/// The gross expected duration for the calendar days `sd..=ed`, before
/// day-off reductions, in seconds: whole weeks at the weekly total plus
/// the trailing partial week summed over its actual weekdays.
pub open spec fn spec_gross_seconds(wh: WorkingHours, sd: int, ed: int) -> int {
    let days_diff = ed - sd + 1;
    (days_diff / 7) * wh.spec_week_total() + spec_tail_sum(wh, ed, days_diff % 7)
}

/// The expected working duration for the calendar days `sd..=ed`, in
/// ticks: the gross duration minus all day-off reductions, clamped at
/// zero.
pub open spec fn spec_expected_ticks(
    wh: WorkingHours,
    v: Seq<(Date, DayOffEntry)>,
    h: Seq<(Date, DayOffEntry)>,
    s: Seq<(Date, DayOffEntry)>,
    sd: int,
    ed: int,
) -> int {
    let gross = 2 * spec_gross_seconds(wh, sd, ed);
    let red = spec_reduction_sum(wh, v, h, s, sd, ed);
    if gross >= red {
        gross - red
    } else {
        0
    }
}

/// The expected working duration for the period `[from, to]`, in whole
/// seconds. The period's bounds are taken to the local dates containing
/// them, both inclusive; an inverted period is empty and yields zero.
pub open spec fn spec_expected_duration(
    wh: WorkingHours,
    v: Seq<(Date, DayOffEntry)>,
    h: Seq<(Date, DayOffEntry)>,
    s: Seq<(Date, DayOffEntry)>,
    from: int,
    to: int,
    off: int,
) -> int {
    if from > to {
        0
    } else {
        spec_expected_ticks(
            wh,
            v,
            h,
            s,
            spec_local_day(from, off),
            spec_local_day(to, off),
        ) / 2
    }
}

/// The mathematical values of a merged day-off list.
pub open spec fn merged_views(s: Seq<(Date, DayPortion)>) -> Seq<(int, DayPortion)> {
    s.map_values(|e: (Date, DayPortion)| (e.0.days as int, e.1))
}

/// The merged day-off entries for the days `lo..=hi`, in date order: one
/// entry per day that any calendar lists, with the merged portion.
pub open spec fn spec_merged_seq(
    v: Seq<(Date, DayOffEntry)>,
    h: Seq<(Date, DayOffEntry)>,
    s: Seq<(Date, DayOffEntry)>,
    lo: int,
    hi: int,
) -> Seq<(int, DayPortion)>
    decreases hi + 1 - lo,
{
    if lo > hi {
        Seq::empty()
    } else {
        let prefix = spec_merged_seq(v, h, s, lo, hi - 1);
        match spec_merged_portion(v, h, s, hi) {
            Some(p) => prefix.push((hi, p)),
            None => prefix,
        }
    }
}

/// The reduction of one merged entry, in ticks.
pub open spec fn spec_entry_ticks(wh: WorkingHours, e: (int, DayPortion)) -> int {
    let tmpl = wh.spec_for_weekday(spec_weekday(e.0));
    match e.1 {
        DayPortion::Full => 2 * tmpl,
        DayPortion::Half => tmpl,
    }
}

/// Sum of the reductions of a merged day-off list, in ticks.
pub open spec fn spec_entries_ticks_sum(wh: WorkingHours, s: Seq<(int, DayPortion)>) -> int
    decreases s.len(),
{
    if s.len() == 0 {
        0
    } else {
        spec_entries_ticks_sum(wh, s.drop_last()) + spec_entry_ticks(wh, s.last())
    }
}

/// The reductions of the merged entries for `lo..=hi` sum to the day
/// reductions over those days: days without an entry contribute zero.
pub proof fn lemma_merged_sum(
    wh: WorkingHours,
    v: Seq<(Date, DayOffEntry)>,
    h: Seq<(Date, DayOffEntry)>,
    s: Seq<(Date, DayOffEntry)>,
    lo: int,
    hi: int,
)
    ensures
        spec_entries_ticks_sum(wh, spec_merged_seq(v, h, s, lo, hi)) == spec_reduction_sum(
            wh,
            v,
            h,
            s,
            lo,
            hi,
        ),
    decreases hi + 1 - lo,
{
    if lo <= hi {
        lemma_merged_sum(wh, v, h, s, lo, hi - 1);
        let prefix = spec_merged_seq(v, h, s, lo, hi - 1);
        match spec_merged_portion(v, h, s, hi) {
            Some(p) => {
                let whole = prefix.push((hi, p));
                assert(whole.drop_last() =~= prefix);
                assert(whole.last() == (hi, p));
            },
            None => {},
        }
    }
}

/// Law: a date listed in several calendars at once reduces the expected
/// time only once, by the most severe portion recorded for it.
pub proof fn lemma_merge_takes_max_severity(
    v: Seq<(Date, DayOffEntry)>,
    h: Seq<(Date, DayOffEntry)>,
    s: Seq<(Date, DayOffEntry)>,
    d: int,
    pv: DayPortion,
    ph: DayPortion,
    ps: DayPortion,
)
    requires
        spec_cal_portion(v, d) == Some(pv),
        spec_cal_portion(h, d) == Some(ph),
        spec_cal_portion(s, d) == Some(ps),
    ensures
        spec_merged_portion(v, h, s, d) == Some(
            spec_portion_max(spec_portion_max(pv, ph), ps),
        ),
{
}

/// Two calendar triples with equal day reductions on every day of a range
/// have equal reduction sums over it.
proof fn lemma_reduction_sum_pointwise(
    wh: WorkingHours,
    v: Seq<(Date, DayOffEntry)>,
    h: Seq<(Date, DayOffEntry)>,
    s: Seq<(Date, DayOffEntry)>,
    v2: Seq<(Date, DayOffEntry)>,
    h2: Seq<(Date, DayOffEntry)>,
    s2: Seq<(Date, DayOffEntry)>,
    lo: int,
    hi: int,
)
    requires
        forall|x: int|
            lo <= x <= hi ==> spec_day_reduction(wh, v2, h2, s2, x) == spec_day_reduction(
                wh,
                v,
                h,
                s,
                x,
            ),
    ensures
        spec_reduction_sum(wh, v2, h2, s2, lo, hi) == spec_reduction_sum(wh, v, h, s, lo, hi),
    decreases hi + 1 - lo,
{
    if lo <= hi {
        lemma_reduction_sum_pointwise(wh, v, h, s, v2, h2, s2, lo, hi - 1);
    }
}

/// Changing the calendars at one day alone shifts the reduction sum of a
/// range containing it by the difference at that day.
proof fn lemma_reduction_sum_change_one(
    wh: WorkingHours,
    v: Seq<(Date, DayOffEntry)>,
    h: Seq<(Date, DayOffEntry)>,
    s: Seq<(Date, DayOffEntry)>,
    v2: Seq<(Date, DayOffEntry)>,
    h2: Seq<(Date, DayOffEntry)>,
    s2: Seq<(Date, DayOffEntry)>,
    lo: int,
    hi: int,
    d: int,
)
    requires
        lo <= d <= hi,
        forall|x: int|
            x != d ==> spec_day_reduction(wh, v2, h2, s2, x) == spec_day_reduction(wh, v, h, s, x),
    ensures
        spec_reduction_sum(wh, v2, h2, s2, lo, hi) == spec_reduction_sum(wh, v, h, s, lo, hi)
            + spec_day_reduction(wh, v2, h2, s2, d) - spec_day_reduction(wh, v, h, s, d),
    decreases hi + 1 - lo,
{
    if d == hi {
        lemma_reduction_sum_pointwise(wh, v, h, s, v2, h2, s2, lo, hi - 1);
    } else {
        lemma_reduction_sum_change_one(wh, v, h, s, v2, h2, s2, lo, hi - 1, d);
    }
}

/// Law: a day-off entry dated outside the period's days has no effect on
/// the expected duration. The two calendar triples agree everywhere but
/// at day `d`, which lies outside the period.
pub proof fn lemma_day_off_outside_range_ignored(
    wh: WorkingHours,
    v: Seq<(Date, DayOffEntry)>,
    h: Seq<(Date, DayOffEntry)>,
    s: Seq<(Date, DayOffEntry)>,
    v2: Seq<(Date, DayOffEntry)>,
    h2: Seq<(Date, DayOffEntry)>,
    s2: Seq<(Date, DayOffEntry)>,
    from: int,
    to: int,
    off: int,
    d: int,
)
    requires
        forall|x: int|
            x != d ==> spec_merged_portion(v2, h2, s2, x) == spec_merged_portion(v, h, s, x),
        d < spec_local_day(from, off) || d > spec_local_day(to, off),
    ensures
        spec_expected_duration(wh, v2, h2, s2, from, to, off) == spec_expected_duration(
            wh,
            v,
            h,
            s,
            from,
            to,
            off,
        ),
{
    if from <= to {
        let sd = spec_local_day(from, off);
        let ed = spec_local_day(to, off);
        assert forall|x: int| sd <= x <= ed implies spec_day_reduction(wh, v2, h2, s2, x)
            == spec_day_reduction(wh, v, h, s, x) by {
            assert(x != d);
        }
        lemma_reduction_sum_pointwise(wh, v, h, s, v2, h2, s2, sd, ed);
    }
}

/// Law: a day off on a weekday whose template duration is zero subtracts
/// nothing and leaves the expected duration unchanged. The two calendar
/// triples agree everywhere but at day `d`.
pub proof fn lemma_zero_template_day_off(
    wh: WorkingHours,
    v: Seq<(Date, DayOffEntry)>,
    h: Seq<(Date, DayOffEntry)>,
    s: Seq<(Date, DayOffEntry)>,
    v2: Seq<(Date, DayOffEntry)>,
    h2: Seq<(Date, DayOffEntry)>,
    s2: Seq<(Date, DayOffEntry)>,
    from: int,
    to: int,
    off: int,
    d: int,
)
    requires
        forall|x: int|
            x != d ==> spec_merged_portion(v2, h2, s2, x) == spec_merged_portion(v, h, s, x),
        wh.spec_for_weekday(spec_weekday(d)) == 0,
    ensures
        spec_expected_duration(wh, v2, h2, s2, from, to, off) == spec_expected_duration(
            wh,
            v,
            h,
            s,
            from,
            to,
            off,
        ),
{
    if from <= to {
        let sd = spec_local_day(from, off);
        let ed = spec_local_day(to, off);
        assert forall|x: int| sd <= x <= ed implies spec_day_reduction(wh, v2, h2, s2, x)
            == spec_day_reduction(wh, v, h, s, x) by {
            if x == d {
                assert(spec_day_reduction(wh, v2, h2, s2, x) == 0);
                assert(spec_day_reduction(wh, v, h, s, x) == 0);
            }
        }
        lemma_reduction_sum_pointwise(wh, v, h, s, v2, h2, s2, sd, ed);
    }
}

/// Law: adding one day off inside the period reduces the expected time
/// (in ticks) by its portion of that weekday's template — the whole
/// duration for a full day, half of it for a half day — clamped at zero.
pub proof fn lemma_day_off_subtracts(
    wh: WorkingHours,
    v: Seq<(Date, DayOffEntry)>,
    h: Seq<(Date, DayOffEntry)>,
    s: Seq<(Date, DayOffEntry)>,
    v2: Seq<(Date, DayOffEntry)>,
    h2: Seq<(Date, DayOffEntry)>,
    s2: Seq<(Date, DayOffEntry)>,
    from: int,
    to: int,
    off: int,
    d: int,
    p: DayPortion,
)
    requires
        from <= to,
        spec_local_day(from, off) <= d <= spec_local_day(to, off),
        spec_merged_portion(v, h, s, d) == None::<DayPortion>,
        spec_merged_portion(v2, h2, s2, d) == Some(p),
        forall|x: int|
            x != d ==> spec_merged_portion(v2, h2, s2, x) == spec_merged_portion(v, h, s, x),
    ensures
        ({
            let sd = spec_local_day(from, off);
            let ed = spec_local_day(to, off);
            let before = spec_expected_ticks(wh, v, h, s, sd, ed);
            let amount = match p {
                DayPortion::Full => 2 * wh.spec_for_weekday(spec_weekday(d)),
                DayPortion::Half => wh.spec_for_weekday(spec_weekday(d)),
            };
            spec_expected_ticks(wh, v2, h2, s2, sd, ed) == if before >= amount {
                before - amount
            } else {
                0
            }
        }),
{
    let sd = spec_local_day(from, off);
    let ed = spec_local_day(to, off);
    assert forall|x: int| x != d implies spec_day_reduction(wh, v2, h2, s2, x)
        == spec_day_reduction(wh, v, h, s, x) by {}
    lemma_reduction_sum_change_one(wh, v, h, s, v2, h2, s2, sd, ed, d);
}

/// The template duration of the weekday of `date`.
pub fn get_hours_for_day(date: Date, working_hours: &WorkingHours) -> (r: u64)
    requires
        date.in_range(),
    ensures
        r == working_hours.spec_for_weekday(spec_weekday(date.days as int)),
{
    let w = date.weekday();
    if w == 0 {
        working_hours.monday
    } else if w == 1 {
        working_hours.tuesday
    } else if w == 2 {
        working_hours.wednesday
    } else if w == 3 {
        working_hours.thursday
    } else if w == 4 {
        working_hours.friday
    } else if w == 5 {
        working_hours.saturday
    } else {
        working_hours.sunday
    }
}

/// The number of whole weeks in the period's day range and the days left
/// over, counting both boundary dates.
pub fn calculate_weeks_and_days(timespan: &Timespan, offset: i64) -> (r: (i64, i64))
    requires
        valid_offset(offset as int),
        valid_instant(timespan.from as int, offset as int),
        valid_instant(timespan.to as int, offset as int),
        timespan.from <= timespan.to,
    ensures
        ({
            let days_diff = spec_local_day(timespan.to as int, offset as int) - spec_local_day(
                timespan.from as int,
                offset as int,
            ) + 1;
            r.0 == days_diff / 7 && r.1 == days_diff % 7 && 1 <= days_diff <= MAX_DAY_NUMBER
                - MIN_DAY_NUMBER + 1 && 0 <= r.0 && 0 <= r.1 < 7
        }),
{
    let from_date = local_date(timespan.from, offset);
    let to_date = local_date(timespan.to, offset);
    proof {
        lemma_div_is_ordered(
            timespan.from + offset,
            timespan.to + offset,
            86400,
        );
    }
    let days_diff = to_date.days - from_date.days + 1;
    (days_diff / 7, days_diff % 7)
}

/// Sum of the template durations of the trailing `remaining_days` days of
/// the period, ending at `end_date`.
pub fn calculate_remaining_days_hours(
    remaining_days: i64,
    end_date: Date,
    working_days: &WorkingHours,
) -> (r: u64)
    requires
        0 <= remaining_days < 7,
        end_date.in_range(),
        working_days.wf(),
        remaining_days > 0 ==> day_in_range(end_date.days - remaining_days + 1),
    ensures
        r == spec_tail_sum(*working_days, end_date.days as int, remaining_days as int),
        r <= 7 * 86400,
{
    if remaining_days == 0 {
        return 0;
    }
    let start_day: i64 = end_date.days - (remaining_days - 1);
    let mut total: u64 = 0;
    let mut offset: i64 = 0;
    while offset < remaining_days
        invariant
            0 <= offset <= remaining_days < 7,
            day_in_range(start_day as int),
            start_day + remaining_days - 1 == end_date.days,
            end_date.in_range(),
            working_days.wf(),
            total == spec_tail_sum(*working_days, start_day + offset - 1, offset as int),
            total <= 86400 * offset,
        decreases remaining_days - offset,
    {
        let current = Date { days: start_day + offset };
        total = total + get_hours_for_day(current, working_days);
        offset = offset + 1;
    }
    total
}

/// The portion recorded for day `day` in one calendar.
fn calendar_portion(cal: &Vec<(Date, DayOffEntry)>, day: i64) -> (r: Option<DayPortion>)
    ensures
        r == spec_cal_portion(cal@, day as int),
{
    let mut i: usize = 0;
    proof {
        assert(cal@.subrange(0, cal@.len() as int) =~= cal@);
    }
    while i < cal.len()
        invariant
            0 <= i <= cal@.len(),
            spec_cal_portion(cal@, day as int) == spec_cal_portion(
                cal@.subrange(i as int, cal@.len() as int),
                day as int,
            ),
        decreases cal@.len() - i,
    {
        let ghost rest = cal@.subrange(i as int, cal@.len() as int);
        proof {
            assert(rest[0] == cal@[i as int]);
            assert(rest.subrange(1, rest.len() as int) =~= cal@.subrange(
                i as int + 1,
                cal@.len() as int,
            ));
        }
        if cal[i].0.days == day {
            return Some(cal[i].1.portion);
        }
        i = i + 1;
    }
    proof {
        assert(cal@.subrange(cal@.len() as int, cal@.len() as int).len() == 0);
    }
    None
}

/// The more severe of two optional portions.
fn opt_portion_max(a: Option<DayPortion>, b: Option<DayPortion>) -> (r: Option<DayPortion>)
    ensures
        r == spec_opt_portion_max(a, b),
{
    match (a, b) {
        (None, None) => None,
        (Some(x), None) => Some(x),
        (None, Some(y)) => Some(y),
        (Some(x), Some(y)) => if portion_order(&x) >= portion_order(&y) {
            Some(x)
        } else {
            Some(y)
        },
    }
}

/// The merged portion for day `day` across the three calendars.
fn portion_at(
    vacations: &Vacations,
    holidays: &Holidays,
    sick_days: &SickDays,
    day: i64,
) -> (r: Option<DayPortion>)
    ensures
        r == spec_merged_portion(vacations@, holidays@, sick_days@, day as int),
{
    let pv = calendar_portion(vacations, day);
    let ph = calendar_portion(holidays, day);
    let ps = calendar_portion(sick_days, day);
    opt_portion_max(opt_portion_max(pv, ph), ps)
}

/// Combines the three day-off calendars over the dates
/// `start_date..=end_date` into one date-ordered list with one entry per
/// date listed anywhere, holding the most severe portion recorded for it.
pub fn merge_day_offs_in_range(
    vacations: &Vacations,
    holidays: &Holidays,
    sick_days: &SickDays,
    start_date: Date,
    end_date: Date,
) -> (r: Vec<(Date, DayPortion)>)
    requires
        start_date.in_range(),
        end_date.in_range(),
    ensures
        merged_views(r@) == spec_merged_seq(
            vacations@,
            holidays@,
            sick_days@,
            start_date.days as int,
            end_date.days as int,
        ),
        forall|i: int|
            0 <= i < r@.len() ==> start_date.days <= (#[trigger] r@[i]).0.days <= end_date.days,
{
    let mut out: Vec<(Date, DayPortion)> = Vec::new();
    if start_date.days > end_date.days {
        proof {
            assert(merged_views(out@) =~= Seq::<(int, DayPortion)>::empty());
        }
        return out;
    }
    let mut d: i64 = start_date.days;
    proof {
        assert(merged_views(out@) =~= spec_merged_seq(
            vacations@,
            holidays@,
            sick_days@,
            start_date.days as int,
            d - 1,
        ));
    }
    while d <= end_date.days
        invariant
            start_date.days <= d <= end_date.days + 1,
            start_date.in_range(),
            end_date.in_range(),
            merged_views(out@) == spec_merged_seq(
                vacations@,
                holidays@,
                sick_days@,
                start_date.days as int,
                d - 1,
            ),
            forall|i: int|
                0 <= i < out@.len() ==> start_date.days <= (#[trigger] out@[i]).0.days < d,
        decreases end_date.days + 1 - d,
    {
        match portion_at(vacations, holidays, sick_days, d) {
            Some(p) => {
                let ghost prev = out@;
                out.push((Date { days: d }, p));
                proof {
                    assert(merged_views(out@) =~= merged_views(prev).push((d as int, p)));
                }
            },
            None => {},
        }
        d = d + 1;
    }
    out
}

/// Subtracts each merged day-off reduction from the running total, never
/// letting it fall below zero. The result is the total minus the summed
/// reductions, clamped at zero.
pub fn subtract_day_offs(
    ticks: u64,
    day_offs: &Vec<(Date, DayPortion)>,
    working_hours: &WorkingHours,
) -> (r: u64)
    requires
        working_hours.wf(),
        forall|i: int| 0 <= i < day_offs@.len() ==> (#[trigger] day_offs@[i]).0.in_range(),
    ensures
        ({
            let total = spec_entries_ticks_sum(*working_hours, merged_views(day_offs@));
            if ticks >= total {
                r == ticks - total
            } else {
                r == 0
            }
        }),
{
    let mut duration: u64 = ticks;
    let mut i: usize = 0;
    while i < day_offs.len()
        invariant
            0 <= i <= day_offs@.len(),
            working_hours.wf(),
            forall|k: int| 0 <= k < day_offs@.len() ==> (#[trigger] day_offs@[k]).0.in_range(),
            duration <= ticks,
            ({
                let part = spec_entries_ticks_sum(
                    *working_hours,
                    merged_views(day_offs@).subrange(0, i as int),
                );
                if ticks >= part {
                    duration == ticks - part
                } else {
                    duration == 0
                }
            }),
        decreases day_offs@.len() - i,
    {
        let ghost pre = merged_views(day_offs@).subrange(0, i as int);
        let ghost cur = merged_views(day_offs@).subrange(0, i as int + 1);
        proof {
            assert(cur.drop_last() =~= pre);
            assert(cur.last() == merged_views(day_offs@)[i as int]);
        }
        let (date, portion) = day_offs[i];
        let daily = get_hours_for_day(date, working_hours);
        let subtract: u64 = match portion {
            DayPortion::Full => 2 * daily,
            DayPortion::Half => daily,
        };
        if duration >= subtract {
            duration = duration - subtract;
        } else {
            duration = 0;
        }
        i = i + 1;
    }
    proof {
        assert(merged_views(day_offs@).subrange(0, day_offs@.len() as int) =~= merged_views(
            day_offs@,
        ));
    }
    duration
}

/// The expected working duration for the period, in whole seconds: whole
/// weeks at the weekly template total, the trailing partial week at its
/// actual weekdays, minus every merged day off scaled by its portion,
/// clamped at zero. A period with `from > to` is empty and yields zero.
pub fn expected_duration(
    config: &Config,
    timespan: &Timespan,
    holidays: &Holidays,
    sick_days: &SickDays,
    vacations: &Vacations,
    offset: i64,
) -> (r: i64)
    requires
        config.working_hours.wf(),
        valid_offset(offset as int),
        timespan.from <= timespan.to ==> valid_instant(timespan.from as int, offset as int)
            && valid_instant(timespan.to as int, offset as int),
    ensures
        r == spec_expected_duration(
            config.working_hours,
            vacations@,
            holidays@,
            sick_days@,
            timespan.from as int,
            timespan.to as int,
            offset as int,
        ),
        timespan.from > timespan.to ==> r == 0,
{
    if timespan.from > timespan.to {
        return 0;
    }
    let start_date = local_date(timespan.from, offset);
    let end_date = local_date(timespan.to, offset);
    let (full_weeks, remaining_days) = calculate_weeks_and_days(timespan, offset);
    let working_duration_per_week = config.working_hours.total_weekly_duration();
    proof {
        lemma_mul_upper_bound(full_weeks as int, 521723, working_duration_per_week as int, 604800);
        vstd::arithmetic::mul::lemma_mul_nonnegative(
            full_weeks as int,
            working_duration_per_week as int,
        );
    }
    let full_week_duration: u64 = (full_weeks as u64) * working_duration_per_week;
    let remaining_days_duration = calculate_remaining_days_hours(
        remaining_days,
        end_date,
        &config.working_hours,
    );
    let gross_ticks: u64 = 2 * (full_week_duration + remaining_days_duration);
    let day_offs = merge_day_offs_in_range(vacations, holidays, sick_days, start_date, end_date);
    proof {
        lemma_merged_sum(
            config.working_hours,
            vacations@,
            holidays@,
            sick_days@,
            start_date.days as int,
            end_date.days as int,
        );
    }
    let total_ticks = subtract_day_offs(gross_ticks, &day_offs, &config.working_hours);
    (total_ticks / 2) as i64
}

/// Sum of the durations of a frame list, in seconds.
pub open spec fn spec_total_duration(s: Seq<FrameV>) -> int
    decreases s.len(),
{
    if s.len() == 0 {
        0
    } else {
        spec_total_duration(s.drop_last()) + (s.last().end_time - s.last().start_time)
    }
}

/// Whether every frame closes at or after its start.
pub open spec fn frames_well_formed(s: Seq<FrameV>) -> bool {
    forall|i: int| 0 <= i < s.len() ==> (#[trigger] s[i]).end_time >= s[i].start_time
}

/// The total recorded duration of the frames, in seconds.
pub fn total_duration(frames: &Frames) -> (r: i64)
    requires
        frames_well_formed(frames@),
        spec_total_duration(frames@) <= i64::MAX,
    ensures
        r == spec_total_duration(frames@),
{
    let mut total_time: i64 = 0;
    let mut i: usize = 0;
    while i < frames.frames.len()
        invariant
            0 <= i <= frames@.len(),
            frames@.len() == frames.frames@.len(),
            frames_well_formed(frames@),
            spec_total_duration(frames@) <= i64::MAX,
            total_time == spec_total_duration(frames@.subrange(0, i as int)),
        decreases frames@.len() - i,
    {
        let ghost pre = frames@.subrange(0, i as int);
        let ghost cur = frames@.subrange(0, i as int + 1);
        proof {
            assert(cur.drop_last() =~= pre);
            assert(cur.last() == frames@[i as int]);
            assert(frames@[i as int] == frames.frames@[i as int]@);
            lemma_prefix_duration_nonneg(frames@, i as int);
            lemma_prefix_duration_le(frames@, i as int + 1);
            assert(spec_total_duration(cur) == spec_total_duration(pre) + (frames@[i as int]
                .end_time - frames@[i as int].start_time));
        }
        let f = &frames.frames[i];
        let duration = f.end_time - f.start_time;
        total_time = total_time + duration;
        i = i + 1;
    }
    proof {
        assert(frames@.subrange(0, frames@.len() as int) =~= frames@);
    }
    total_time
}

/// The start-boundary pass keeps frames well formed and cannot increase
/// the total duration.
pub proof fn lemma_filter_start_duration(s: Seq<FrameV>, from: int)
    requires
        frames_well_formed(s),
    ensures
        frames_well_formed(spec_filter_start(s, from)),
        0 <= spec_total_duration(spec_filter_start(s, from)) <= spec_total_duration(s),
    decreases s.len(),
{
    if s.len() == 0 {
    } else {
        assert(frames_well_formed(s.drop_last())) by {
            assert(forall|i: int|
                0 <= i < s.drop_last().len() ==> #[trigger] s.drop_last()[i] == s[i]);
        }
        lemma_filter_start_duration(s.drop_last(), from);
        assert(s.last() == s[s.len() - 1]);
        let r = spec_filter_start(s, from);
        let prefix = spec_filter_start(s.drop_last(), from);
        if spec_keep_start(s.last(), from) {
            let c = spec_clip_start(s.last(), from);
            assert(r.drop_last() =~= prefix);
            assert(r.last() == c);
            assert forall|i: int| 0 <= i < r.len() implies (#[trigger] r[i]).end_time
                >= r[i].start_time by {
                if i < prefix.len() {
                    assert(r[i] == prefix[i]);
                }
            }
        }
    }
}

/// The end-boundary pass keeps frames well formed and cannot increase the
/// total duration.
pub proof fn lemma_filter_end_duration(s: Seq<FrameV>, to: int)
    requires
        frames_well_formed(s),
    ensures
        frames_well_formed(spec_filter_end(s, to)),
        0 <= spec_total_duration(spec_filter_end(s, to)) <= spec_total_duration(s),
    decreases s.len(),
{
    if s.len() == 0 {
    } else {
        assert(frames_well_formed(s.drop_last())) by {
            assert(forall|i: int|
                0 <= i < s.drop_last().len() ==> #[trigger] s.drop_last()[i] == s[i]);
        }
        lemma_filter_end_duration(s.drop_last(), to);
        assert(s.last() == s[s.len() - 1]);
        let r = spec_filter_end(s, to);
        let prefix = spec_filter_end(s.drop_last(), to);
        if spec_keep_end(s.last(), to) {
            let c = spec_clip_end(s.last(), to);
            assert(r.drop_last() =~= prefix);
            assert(r.last() == c);
            assert forall|i: int| 0 <= i < r.len() implies (#[trigger] r[i]).end_time
                >= r[i].start_time by {
                if i < prefix.len() {
                    assert(r[i] == prefix[i]);
                }
            }
        }
    }
}

/// The project filter keeps frames well formed and cannot increase the
/// total duration.
pub proof fn lemma_filter_project_duration(s: Seq<FrameV>, p: Seq<char>)
    requires
        frames_well_formed(s),
    ensures
        frames_well_formed(spec_filter_project(s, p)),
        0 <= spec_total_duration(spec_filter_project(s, p)) <= spec_total_duration(s),
    decreases s.len(),
{
    if s.len() == 0 {
    } else {
        assert(frames_well_formed(s.drop_last())) by {
            assert(forall|i: int|
                0 <= i < s.drop_last().len() ==> #[trigger] s.drop_last()[i] == s[i]);
        }
        lemma_filter_project_duration(s.drop_last(), p);
        assert(s.last() == s[s.len() - 1]);
        let r = spec_filter_project(s, p);
        let prefix = spec_filter_project(s.drop_last(), p);
        if s.last().project == p {
            assert(r.drop_last() =~= prefix);
            assert(r.last() == s.last());
            assert forall|i: int| 0 <= i < r.len() implies (#[trigger] r[i]).end_time
                >= r[i].start_time by {
                if i < prefix.len() {
                    assert(r[i] == prefix[i]);
                }
            }
        }
    }
}

/// The tag filter keeps frames well formed and cannot increase the total
/// duration.
pub proof fn lemma_filter_tag_duration(s: Seq<FrameV>, t: Seq<char>)
    requires
        frames_well_formed(s),
    ensures
        frames_well_formed(spec_filter_tag(s, t)),
        0 <= spec_total_duration(spec_filter_tag(s, t)) <= spec_total_duration(s),
    decreases s.len(),
{
    if s.len() == 0 {
    } else {
        assert(frames_well_formed(s.drop_last())) by {
            assert(forall|i: int|
                0 <= i < s.drop_last().len() ==> #[trigger] s.drop_last()[i] == s[i]);
        }
        lemma_filter_tag_duration(s.drop_last(), t);
        assert(s.last() == s[s.len() - 1]);
        let r = spec_filter_tag(s, t);
        let prefix = spec_filter_tag(s.drop_last(), t);
        if s.last().tags.contains(t) {
            assert(r.drop_last() =~= prefix);
            assert(r.last() == s.last());
            assert forall|i: int| 0 <= i < r.len() implies (#[trigger] r[i]).end_time
                >= r[i].start_time by {
                if i < prefix.len() {
                    assert(r[i] == prefix[i]);
                }
            }
        }
    }
}

/// The whole filter pipeline keeps frames well formed and cannot increase
/// the total duration.
pub proof fn lemma_filter_frames_duration(
    s: Seq<FrameV>,
    from: int,
    to: int,
    p: Option<Seq<char>>,
    t: Option<Seq<char>>,
)
    requires
        frames_well_formed(s),
    ensures
        frames_well_formed(spec_filter_frames(s, from, to, p, t)),
        0 <= spec_total_duration(spec_filter_frames(s, from, to, p, t)) <= spec_total_duration(s),
{
    lemma_prefix_duration_nonneg(s, s.len() as int);
    assert(s.subrange(0, s.len() as int) =~= s);
    if from > to {
        assert(spec_total_duration(Seq::<FrameV>::empty()) == 0);
        assert(frames_well_formed(Seq::<FrameV>::empty()));
    } else {
        lemma_filter_start_duration(s, from);
        let s1 = spec_filter_start(s, from);
        lemma_filter_end_duration(s1, to);
        let s2 = spec_filter_end(s1, to);
        let s3 = match p {
            Some(pv) => {
                lemma_filter_project_duration(s2, pv);
                spec_filter_project(s2, pv)
            },
            None => s2,
        };
        let s4 = match t {
            Some(tv) => {
                lemma_filter_tag_duration(s3, tv);
                spec_filter_tag(s3, tv)
            },
            None => s3,
        };
        assert(spec_filter_frames(s, from, to, p, t) == s4);
        assert(frames_well_formed(s4));
        assert(0 <= spec_total_duration(s4) <= spec_total_duration(s));
    }
}

/// The frame list with the in-progress frame, if any, closed at `now`
/// and appended.
pub open spec fn spec_synthesized(frames: Seq<FrameV>, state: State, now: int) -> Seq<FrameV> {
    frames + match state.current_frame {
        Some(c) => seq![spec_close_frame(c@, now)],
        None => Seq::<FrameV>::empty(),
    }
}

/// The balance of a period: the expected working time, the recorded
/// working time, and what remains.
#[derive(Clone, Copy, Debug, PartialEq, Eq, Structural)]
pub struct BalanceOutput {
    pub expected_working_seconds: i64,
    pub actual_working_seconds: i64,
    pub remaining_working_seconds: i64,
    pub timespan: Timespan,
}

/// Computes the balance of the requested period: the in-progress frame,
/// if any, is closed at `now` and counted; the period is resolved against
/// `now` and the frames; the recorded frames are clipped to it and
/// summed; and the expected duration is computed from the template and
/// the day-off calendars. Remaining time is expected minus actual.
pub fn balance_summary(
    config: &Config,
    frames: Frames,
    state: &State,
    holidays: &Holidays,
    sick_days: &SickDays,
    vacations: &Vacations,
    args: &PeriodArgs,
    now: i64,
    offset: i64,
) -> (r: BalanceOutput)
    requires
        config.working_hours.wf(),
        valid_offset(offset as int),
        valid_instant(now as int, offset as int),
        frames_well_formed(frames@),
        (match state.current_frame {
            Some(c) => c.start_time <= now,
            None => true,
        }),
        spec_total_duration(spec_synthesized(frames@, *state, now as int)) <= i64::MAX,
        ({
            let synth = spec_synthesized(frames@, *state, now as int);
            let resolved = spec_resolve_timespan(*args, now as int, synth, offset as int);
            resolved.0 <= resolved.1 ==> valid_instant(resolved.0, offset as int) && valid_instant(
                resolved.1,
                offset as int,
            )
        }),
    ensures
        ({
            let synth = spec_synthesized(frames@, *state, now as int);
            let resolved = spec_resolve_timespan(*args, now as int, synth, offset as int);
            let clipped = spec_filter_frames(synth, resolved.0, resolved.1, None, None);
            &&& r.timespan.from == resolved.0
            &&& r.timespan.to == resolved.1
            &&& r.expected_working_seconds == spec_expected_duration(
                config.working_hours,
                vacations@,
                holidays@,
                sick_days@,
                resolved.0,
                resolved.1,
                offset as int,
            )
            &&& r.actual_working_seconds == spec_total_duration(clipped)
            &&& r.remaining_working_seconds == r.expected_working_seconds
                - r.actual_working_seconds
        }),
{
    let ghost orig = frames@;
    let ghost synth = spec_synthesized(orig, *state, now as int);
    let mut frames = frames;
    with_current_frame(&mut frames, state, now);
    proof {
        assert(frames@ == synth);
        assert forall|i: int| 0 <= i < synth.len() implies (#[trigger] synth[i]).end_time
            >= synth[i].start_time by {
            if i < orig.len() {
                assert(synth[i] == orig[i]);
            } else {
                match state.current_frame {
                    Some(c) => {
                        assert(synth[i] == spec_close_frame(c@, now as int));
                    },
                    None => {
                        assert(false);
                    },
                }
            }
        }
        assert(frames_well_formed(synth));
    }
    let timespan = resolve_timespan(args, now, &frames.frames, offset);
    filter_frames(&mut frames, &timespan, None, None);
    proof {
        lemma_filter_frames_duration(
            synth,
            timespan.from as int,
            timespan.to as int,
            None,
            None,
        );
    }
    let expected_working_seconds = expected_duration(
        config,
        &timespan,
        holidays,
        sick_days,
        vacations,
        offset,
    );
    let actual_working_seconds = total_duration(&frames);
    let remaining_working_seconds = expected_working_seconds - actual_working_seconds;
    BalanceOutput {
        expected_working_seconds,
        actual_working_seconds,
        remaining_working_seconds,
        timespan,
    }
}

/// The duration sum of a prefix of a well-formed frame list is at least
/// zero.
pub(crate) proof fn lemma_prefix_duration_nonneg(s: Seq<FrameV>, k: int)
    requires
        frames_well_formed(s),
        0 <= k <= s.len(),
    ensures
        0 <= spec_total_duration(s.subrange(0, k)),
    decreases k,
{
    if k > 0 {
        lemma_prefix_duration_nonneg(s, k - 1);
        let cur = s.subrange(0, k);
        assert(cur.drop_last() =~= s.subrange(0, k - 1));
        assert(cur.last() == s[k - 1]);
    }
}

/// The duration sum of a prefix of a well-formed frame list is at most
/// the whole list's.
pub(crate) proof fn lemma_prefix_duration_le(s: Seq<FrameV>, k: int)
    requires
        frames_well_formed(s),
        0 <= k <= s.len(),
    ensures
        spec_total_duration(s.subrange(0, k)) <= spec_total_duration(s),
    decreases s.len() - k,
{
    if k == s.len() {
        assert(s.subrange(0, k) =~= s);
    } else {
        lemma_prefix_duration_le(s, k + 1);
        let longer = s.subrange(0, k + 1);
        assert(longer.drop_last() =~= s.subrange(0, k));
        assert(longer.last() == s[k]);
    }
}

} // verus!
