//! Data model of the time-accounting engine.
//!
//! Frames are closed work intervals in whole Unix seconds; day-off
//! calendars map dates to an entry with a description and a portion
//! (full or half day); the weekly working-hours template holds one
//! expected duration per weekday.

use crate::date::Date;
use vstd::prelude::*;

verus! {

/// How much of a day an entry in a day-off calendar covers.
#[derive(Clone, Copy, Debug, PartialEq, Eq, Structural)]
pub enum DayPortion {
    Full,
    Half,
}

/// Severity of a portion: a full day dominates a half day.
pub open spec fn spec_portion_order(p: DayPortion) -> int {
    match p {
        DayPortion::Full => 2,
        DayPortion::Half => 1,
    }
}

/// Severity of a portion: a full day dominates a half day.
pub fn portion_order(portion: &DayPortion) -> (r: u8)
    ensures
        r == spec_portion_order(*portion),
{
    match portion {
        DayPortion::Full => 2,
        DayPortion::Half => 1,
    }
}

/// The more severe of two portions.
pub open spec fn spec_portion_max(a: DayPortion, b: DayPortion) -> DayPortion {
    if spec_portion_order(a) >= spec_portion_order(b) {
        a
    } else {
        b
    }
}

/// An entry of a day-off calendar: a description and the portion of the
/// day it covers.
#[derive(Clone, Debug)]
pub struct DayOffEntry {
    pub description: String,
    pub portion: DayPortion,
}

/// Mathematical value of a [`DayOffEntry`].
pub ghost struct DayOffEntryV {
    pub description: Seq<char>,
    pub portion: DayPortion,
}

impl View for DayOffEntry {
    type V = DayOffEntryV;

    open spec fn view(&self) -> DayOffEntryV {
        DayOffEntryV { description: self.description@, portion: self.portion }
    }
}

/// An entry of the holiday calendar.
pub type HolidayEntry = DayOffEntry;

/// An entry of the sick-day calendar.
pub type SickDayEntry = DayOffEntry;

/// An entry of the vacation calendar.
pub type VacationEntry = DayOffEntry;

/// A day-off calendar: dated entries, at most one per date.
pub type Holidays = Vec<(Date, DayOffEntry)>;

/// A day-off calendar of sick days, at most one entry per date.
pub type SickDays = Vec<(Date, DayOffEntry)>;

/// A day-off calendar of vacation days, at most one entry per date.
pub type Vacations = Vec<(Date, DayOffEntry)>;

/// Whether a calendar holds at most one entry per date.
pub open spec fn cal_dates_unique(cal: Seq<(Date, DayOffEntry)>) -> bool {
    forall|i: int, j: int| 0 <= i < j < cal.len() ==> cal[i].0.days != cal[j].0.days
}

/// The portion recorded in `cal` for day number `day`, or `None` when the
/// calendar has no entry on that date.
pub open spec fn spec_cal_portion(cal: Seq<(Date, DayOffEntry)>, day: int) -> Option<DayPortion>
    decreases cal.len(),
{
    if cal.len() == 0 {
        None
    } else if cal[0].0.days == day {
        Some(cal[0].1.portion)
    } else {
        spec_cal_portion(cal.subrange(1, cal.len() as int), day)
    }
}

/// Expected working duration per weekday, in whole seconds.
#[derive(Clone, Debug, PartialEq, Eq, Structural)]
pub struct WorkingHours {
    pub monday: u64,
    pub tuesday: u64,
    pub wednesday: u64,
    pub thursday: u64,
    pub friday: u64,
    pub saturday: u64,
    pub sunday: u64,
}

impl WorkingHours {
    /// Every per-day duration fits within one calendar day.
    pub open spec fn wf(self) -> bool {
        self.monday <= 86400 && self.tuesday <= 86400 && self.wednesday <= 86400
            && self.thursday <= 86400 && self.friday <= 86400 && self.saturday <= 86400
            && self.sunday <= 86400
    }

    /// Sum of the seven per-day durations.
    pub open spec fn spec_week_total(self) -> int {
        self.monday + self.tuesday + self.wednesday + self.thursday + self.friday + self.saturday
            + self.sunday
    }

    /// Expected working duration for one template week, in seconds.
    pub fn total_weekly_duration(&self) -> (r: u64)
        requires
            self.wf(),
        ensures
            r == self.spec_week_total(),
    {
        self.monday + self.tuesday + self.wednesday + self.thursday + self.friday + self.saturday
            + self.sunday
    }

    /// The template duration for weekday `w` (Monday = 0 through
    /// Sunday = 6).
    pub open spec fn spec_for_weekday(self, w: int) -> int {
        if w == 0 {
            self.monday as int
        } else if w == 1 {
            self.tuesday as int
        } else if w == 2 {
            self.wednesday as int
        } else if w == 3 {
            self.thursday as int
        } else if w == 4 {
            self.friday as int
        } else if w == 5 {
            self.saturday as int
        } else {
            self.sunday as int
        }
    }
}

/// Whether an allowance table holds at most one value per starting year.
pub open spec fn table_years_unique(table: Seq<(i32, i32)>) -> bool {
    forall|i: int, j: int| 0 <= i < j < table.len() ==> table[i].0 != table[j].0
}

/// Configuration of the engine: yearly allowances for vacation and sick
/// days, each a sparse table from effective starting year to a number of
/// days, and the weekly working-hours template.
#[derive(Clone, Debug)]
pub struct Config {
    pub vacation_days_per_year: Vec<(i32, i32)>,
    pub sick_days_per_year: Vec<(i32, i32)>,
    pub working_hours: WorkingHours,
}

impl Config {
    /// Allowance tables have unique starting years and the template is
    /// well formed.
    pub open spec fn wf(self) -> bool {
        table_years_unique(self.vacation_days_per_year@) && table_years_unique(
            self.sick_days_per_year@,
        ) && self.working_hours.wf()
    }
}

/// A closed work interval with its project and tags.
#[derive(Clone, Debug)]
pub struct Frame {
    pub start_time: i64,
    pub end_time: i64,
    pub project: String,
    pub tags: Vec<String>,
    pub updated_at: i64,
}

/// Mathematical value of a [`Frame`].
pub ghost struct FrameV {
    pub start_time: int,
    pub end_time: int,
    pub project: Seq<char>,
    pub tags: Seq<Seq<char>>,
    pub updated_at: int,
}

impl View for Frame {
    type V = FrameV;

    open spec fn view(&self) -> FrameV {
        FrameV {
            start_time: self.start_time as int,
            end_time: self.end_time as int,
            project: self.project@,
            tags: self.tags.deep_view(),
            updated_at: self.updated_at as int,
        }
    }
}

/// The mathematical values of a sequence of frames.
pub open spec fn frame_views(s: Seq<Frame>) -> Seq<FrameV> {
    s.map_values(|f: Frame| f@)
}

/// The recorded collection of frames.
#[derive(Clone, Debug)]
pub struct Frames {
    pub frames: Vec<Frame>,
}

impl View for Frames {
    type V = Seq<FrameV>;

    open spec fn view(&self) -> Seq<FrameV> {
        frame_views(self.frames@)
    }
}

/// The currently tracked, not yet closed work interval.
#[derive(Clone, Debug)]
pub struct CurrentFrame {
    pub start_time: i64,
    pub project: String,
    pub tags: Vec<String>,
}

/// Mathematical value of a [`CurrentFrame`].
pub ghost struct CurrentFrameV {
    pub start_time: int,
    pub project: Seq<char>,
    pub tags: Seq<Seq<char>>,
}

impl View for CurrentFrame {
    type V = CurrentFrameV;

    open spec fn view(&self) -> CurrentFrameV {
        CurrentFrameV {
            start_time: self.start_time as int,
            project: self.project@,
            tags: self.tags.deep_view(),
        }
    }
}

/// Tracking state: the in-progress frame, if any.
#[derive(Clone, Debug)]
pub struct State {
    pub current_frame: Option<CurrentFrame>,
}

/// The concrete `[from, to]` instant range a report or balance covers.
#[derive(Clone, Copy, Debug, PartialEq, Eq, Structural)]
pub struct Timespan {
    pub from: i64,
    pub to: i64,
}

} // verus!
