//! Period resolver: turns a period request — an explicit `from`/`to`
//! pair, or one of the "day", "week", "month", "year" so-far selectors —
//! together with the current instant and the recorded frames into a
//! concrete `[from, to]` timespan.

use crate::date::{
    local_date, spec_day_number, spec_day_of_month, spec_day_start,
    spec_days_before_year, spec_local_day, spec_weekday, spec_year_of, valid_instant, valid_offset,
    Date, EPOCH_OFFSET_DAYS, MAX_LOCAL_SECONDS, MIN_LOCAL_SECONDS,
};
use crate::types::{frame_views, Frame, FrameV, Timespan};
use vstd::arithmetic::div_mod::lemma_mod_decreases;
use vstd::prelude::*;

verus! {

/// A period request: at most one of the "so far" selectors is expected to
/// be set; without any, the explicit bounds (or their defaults) apply.
#[derive(Clone, Copy, Debug, PartialEq, Eq, Structural)]
pub struct PeriodArgs {
    pub from: Option<i64>,
    pub to: Option<i64>,
    pub day: bool,
    pub week: bool,
    pub month: bool,
    pub year: bool,
}

/// The resolved period, as a pair `(from, to)` of instants:
/// - "day": from local midnight of the current date to `now`;
/// - "week": from local midnight of the Monday of the current week;
/// - "month": from local midnight of the first of the current month;
/// - "year": from local midnight of January 1 of the current year;
/// - otherwise: the explicit `from`, or the first recorded frame's start,
///   or the epoch; and the explicit `to`, or `now`.
///
/// One offset is applied throughout a resolution, so a clock change
/// inside the period cannot make a midnight ambiguous: the offset in
/// force at `now` decides.
pub open spec fn spec_resolve_timespan(
    args: PeriodArgs,
    now: int,
    frames: Seq<FrameV>,
    off: int,
) -> (int, int) {
    let d = spec_local_day(now, off);
    if args.day {
        (spec_day_start(d, off), now)
    } else if args.week {
        (spec_day_start(d - spec_weekday(d), off), now)
    } else if args.month {
        (spec_day_start(d - (spec_day_of_month(d) - 1), off), now)
    } else if args.year {
        (spec_day_start(spec_days_before_year(spec_year_of(d)) - EPOCH_OFFSET_DAYS, off), now)
    } else {
        let from = match args.from {
            Some(f) => f as int,
            None => if frames.len() > 0 {
                frames[0].start_time
            } else {
                0
            },
        };
        let to = match args.to {
            Some(t) => t as int,
            None => now,
        };
        (from, to)
    }
}

/// Resolves a period request against the current instant `now`, the
/// recorded frames and the local-time offset.
pub fn resolve_timespan(args: &PeriodArgs, now: i64, frames: &Vec<Frame>, offset: i64) -> (r:
    Timespan)
    requires
        valid_offset(offset as int),
        valid_instant(now as int, offset as int),
    ensures
        r.from == spec_resolve_timespan(*args, now as int, frame_views(frames@), offset as int).0,
        r.to == spec_resolve_timespan(*args, now as int, frame_views(frames@), offset as int).1,
{
    if args.day {
        let d = local_date(now, offset);
        Timespan { from: crate::date::day_start_timestamp(d, offset), to: now }
    } else if args.week {
        let d = local_date(now, offset);
        let w = d.weekday();
        proof {
            lemma_mod_decreases((d.days + EPOCH_OFFSET_DAYS) as nat, 7nat);
        }
        let monday = Date { days: d.days - (w as i64) };
        Timespan { from: crate::date::day_start_timestamp(monday, offset), to: now }
    } else if args.month {
        let d = local_date(now, offset);
        let (y, m, dom) = d.to_ymd();
        let first = Date { days: d.days - ((dom as i64) - 1) };
        proof {
            assert(first.days == spec_day_number(y as int, m as int, 1));
            crate::date::lemma_day_number_bounds(y as int, m as int, 1);
        }
        Timespan { from: crate::date::day_start_timestamp(first, offset), to: now }
    } else if args.year {
        let d = local_date(now, offset);
        let (y, m, dom) = d.to_ymd();
        let jan1 = Date { days: crate::date::days_before_year(y) - EPOCH_OFFSET_DAYS };
        proof {
            assert(jan1.days == spec_day_number(y as int, 1, 1));
            crate::date::lemma_day_number_bounds(y as int, 1, 1);
        }
        Timespan { from: crate::date::day_start_timestamp(jan1, offset), to: now }
    } else {
        let from = match args.from {
            Some(f) => f,
            None => if frames.len() > 0 {
                proof {
                    assert(frame_views(frames@)[0] == frames@[0]@);
                }
                frames[0].start_time
            } else {
                0
            },
        };
        let to = match args.to {
            Some(t) => t,
            None => now,
        };
        Timespan { from, to }
    }
}

/// Relies on chrono's `Local` time zone: returns the machine's local
/// offset from UTC at the instant `ts`, in seconds. Every offset chrono's
/// `FixedOffset` can hold lies strictly within one day of UTC; an instant
/// chrono cannot represent is answered with zero. The offset depends on
/// the machine's time-zone configuration, so nothing further is promised
/// of the value.
#[verifier::external_body]
fn local_utc_offset(ts: i64) -> (off: i64)
    ensures
        valid_offset(off as int),
{
    match chrono::TimeZone::timestamp_opt(&chrono::Local, ts, 0) {
        chrono::LocalResult::Single(dt) => dt.offset().local_minus_utc() as i64,
        chrono::LocalResult::Ambiguous(dt, _) => dt.offset().local_minus_utc() as i64,
        chrono::LocalResult::None => 0,
    }
}

/// Resolves a period request using the machine's local time zone for the
/// offset. The result is the resolution under some plausible offset;
/// `None` comes back only for instants within a day of the supported
/// range's edges, where the zone's offset could take the local reading
/// outside it.
pub fn resolve_timespan_local(args: &PeriodArgs, now: i64, frames: &Vec<Frame>) -> (r: Option<
    Timespan,
>)
    ensures
        match r {
            Some(ts) => exists|off: int|
                {
                    &&& valid_offset(off)
                    &&& valid_instant(now as int, off)
                    &&& ts.from == #[trigger] spec_resolve_timespan(
                        *args,
                        now as int,
                        frame_views(frames@),
                        off,
                    ).0
                    &&& ts.to == spec_resolve_timespan(*args, now as int, frame_views(frames@), off).1
                },
            None => now < MIN_LOCAL_SECONDS + 86400 || now > MAX_LOCAL_SECONDS - 86400,
        },
        MIN_LOCAL_SECONDS + 86400 <= now <= MAX_LOCAL_SECONDS - 86400 ==> r is Some,
{
    let offset = local_utc_offset(now);
    if now < MIN_LOCAL_SECONDS - 86400 || now > MAX_LOCAL_SECONDS + 86400 {
        return None;
    }
    if MIN_LOCAL_SECONDS <= now + offset && now + offset <= MAX_LOCAL_SECONDS {
        let ts = resolve_timespan(args, now, frames, offset);
        proof {
            assert(valid_offset(offset as int) && valid_instant(now as int, offset as int)
                && ts.from == spec_resolve_timespan(
                *args,
                now as int,
                frame_views(frames@),
                offset as int,
            ).0 && ts.to == spec_resolve_timespan(
                *args,
                now as int,
                frame_views(frames@),
                offset as int,
            ).1);
        }
        Some(ts)
    } else {
        None
    }
}

} // verus!
