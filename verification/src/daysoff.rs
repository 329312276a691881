//! Yearly day-off allowances and day-off calendar maintenance.
//!
//! An allowance table is a sparse mapping from an "effective starting
//! year" to a yearly quota of days: the quota applicable to a year is the
//! value at the largest starting year at or before it, or zero when the
//! table starts later. Calendars hold at most one entry per date, in date
//! order.

use crate::date::{spec_year_of, Date};
use crate::types::{Config, DayOffEntry, DayPortion};
use vstd::prelude::*;

verus! {

/// The best applicable table entry for `year`: among the entries whose
/// starting year is at or before `year`, the one with the largest
/// starting year (the earliest such entry when starting years repeat).
pub open spec fn spec_best_entry(table: Seq<(i32, i32)>, year: int) -> Option<(i32, i32)>
    decreases table.len(),
{
    if table.len() == 0 {
        None
    } else {
        let last = table.last();
        match spec_best_entry(table.drop_last(), year) {
            None => if last.0 <= year {
                Some(last)
            } else {
                None
            },
            Some(b) => if last.0 <= year && last.0 > b.0 {
                Some(last)
            } else {
                Some(b)
            },
        }
    }
}

/// The allowance applicable to `year`: the value of the best entry, or
/// zero without one.
pub open spec fn spec_allowed_for_year(table: Seq<(i32, i32)>, year: int) -> int {
    match spec_best_entry(table, year) {
        None => 0,
        Some(b) => b.1 as int,
    }
}

/// The allowance applicable to `year` from the sparse table `map`.
pub fn find_allowed_for_year(map: &Vec<(i32, i32)>, year: i32) -> (r: i32)
    ensures
        r == spec_allowed_for_year(map@, year as int),
{
    let mut best: Option<(i32, i32)> = None;
    let mut i: usize = 0;
    while i < map.len()
        invariant
            0 <= i <= map@.len(),
            best == spec_best_entry(map@.subrange(0, i as int), year as int),
        decreases map@.len() - i,
    {
        let ghost pre = map@.subrange(0, i as int);
        let ghost cur = map@.subrange(0, i as int + 1);
        proof {
            assert(cur.drop_last() =~= pre);
            assert(cur.last() == map@[i as int]);
        }
        let (from_year, days) = map[i];
        best = match best {
            None => if from_year <= year {
                Some((from_year, days))
            } else {
                None
            },
            Some(b) => if from_year <= year && from_year > b.0 {
                Some((from_year, days))
            } else {
                Some(b)
            },
        };
        i = i + 1;
    }
    proof {
        assert(map@.subrange(0, map@.len() as int) =~= map@);
    }
    match best {
        None => 0,
        Some(b) => b.1,
    }
}

/// Law: when some starting year in the table is at or before `year`, the
/// applicable allowance is the value stored at the largest such starting
/// year; otherwise it is zero.
pub proof fn lemma_allowed_is_max_key(table: Seq<(i32, i32)>, year: int)
    ensures
        (exists|i: int| 0 <= i < table.len() && (#[trigger] table[i]).0 <= year) ==> exists|i: int|
            {
                &&& 0 <= i < table.len()
                &&& (#[trigger] table[i]).0 <= year
                &&& spec_allowed_for_year(table, year) == table[i].1
                &&& forall|j: int|
                    0 <= j < table.len() && (#[trigger] table[j]).0 <= year ==> table[j].0
                        <= table[i].0
            },
        !(exists|i: int| 0 <= i < table.len() && (#[trigger] table[i]).0 <= year) ==> (
        spec_allowed_for_year(table, year) == 0),
{
    lemma_best_entry_is_max(table, year);
    match spec_best_entry(table, year) {
        None => {
        },
        Some(b) => {
            let i = choose|i: int| 0 <= i < table.len() && #[trigger] table[i] == b;
            assert(0 <= i < table.len() && table[i].0 <= year && spec_allowed_for_year(table, year)
                == table[i].1 && forall|j: int|
                0 <= j < table.len() && (#[trigger] table[j]).0 <= year ==> table[j].0
                    <= table[i].0);
        },
    }
}

/// The best entry, when present, is an entry of the table with the
/// largest starting year at or before `year`.
proof fn lemma_best_entry_is_max(table: Seq<(i32, i32)>, year: int)
    ensures
        match spec_best_entry(table, year) {
            None => forall|j: int| 0 <= j < table.len() ==> (#[trigger] table[j]).0 > year,
            Some(b) => {
                &&& b.0 <= year
                &&& exists|i: int| 0 <= i < table.len() && #[trigger] table[i] == b
                &&& forall|j: int|
                    0 <= j < table.len() && (#[trigger] table[j]).0 <= year ==> table[j].0 <= b.0
            },
        },
    decreases table.len(),
{
    if table.len() > 0 {
        lemma_best_entry_is_max(table.drop_last(), year);
        let prefix = table.drop_last();
        assert(forall|i: int| 0 <= i < prefix.len() ==> prefix[i] == #[trigger] table[i]);
        assert(table.last() == table[table.len() - 1]);
        match spec_best_entry(table, year) {
            None => {
                assert forall|j: int| 0 <= j < table.len() implies (#[trigger] table[j]).0
                    > year by {
                    if j < table.len() - 1 {
                        assert(prefix[j].0 > year);
                    }
                }
            },
            Some(b) => {
                if b == table.last() {
                    assert(table[table.len() - 1] == b);
                } else {
                    let i = choose|i: int| 0 <= i < prefix.len() && #[trigger] prefix[i] == b;
                    assert(table[i] == b);
                }
                assert forall|j: int|
                    0 <= j < table.len() && (#[trigger] table[j]).0 <= year implies table[j].0
                    <= b.0 by {
                    if j < table.len() - 1 {
                        assert(prefix[j] == table[j]);
                        match spec_best_entry(prefix, year) {
                            None => {
                                assert(prefix[j].0 > year);
                            },
                            Some(pb) => {
                                assert(prefix[j].0 <= pb.0);
                            },
                        }
                    }
                }
            },
        }
    }
}

impl Config {
    /// The vacation allowance applicable to `year`.
    pub fn allowed_vacation_days(&self, year: i32) -> (r: i32)
        ensures
            r == spec_allowed_for_year(self.vacation_days_per_year@, year as int),
    {
        find_allowed_for_year(&self.vacation_days_per_year, year)
    }

    /// The sick-day allowance applicable to `year`.
    pub fn allowed_sick_days(&self, year: i32) -> (r: i32)
        ensures
            r == spec_allowed_for_year(self.sick_days_per_year@, year as int),
    {
        find_allowed_for_year(&self.sick_days_per_year, year)
    }
}

/// The calendar entries dated in calendar year `y`.
pub open spec fn spec_filter_year(s: Seq<(Date, DayOffEntry)>, y: int) -> Seq<(Date, DayOffEntry)>
    decreases s.len(),
{
    if s.len() == 0 {
        Seq::empty()
    } else {
        let prefix = spec_filter_year(s.drop_last(), y);
        if spec_year_of(s.last().0.days as int) == y {
            prefix.push(s.last())
        } else {
            prefix
        }
    }
}

/// Keeps only the calendar entries dated in `year`.
pub fn filter_by_year(cal: &mut Vec<(Date, DayOffEntry)>, year: i32)
    requires
        forall|i: int| 0 <= i < old(cal)@.len() ==> (#[trigger] old(cal)@[i]).0.in_range(),
    ensures
        final (cal)@ == spec_filter_year(old(cal)@, year as int),
{
    let ghost orig = cal@;
    let mut out: Vec<(Date, DayOffEntry)> = Vec::new();
    let mut i: usize = 0;
    while i < cal.len()
        invariant
            0 <= i <= cal@.len(),
            cal@ == orig,
            forall|k: int| 0 <= k < orig.len() ==> (#[trigger] orig[k]).0.in_range(),
            out@ == spec_filter_year(orig.subrange(0, i as int), year as int),
        decreases cal@.len() - i,
    {
        let ghost pre = orig.subrange(0, i as int);
        let ghost cur = orig.subrange(0, i as int + 1);
        proof {
            assert(cur.drop_last() =~= pre);
            assert(cur.last() == orig[i as int]);
        }
        let date = cal[i].0;
        if date.year() == year {
            let entry = DayOffEntry {
                description: cal[i].1.description.clone(),
                portion: cal[i].1.portion,
            };
            let ghost prev = out@;
            out.push((date, entry));
            proof {
                assert(entry == orig[i as int].1);
                assert(out@ =~= prev.push(orig[i as int]));
            }
        }
        i = i + 1;
    }
    proof {
        assert(orig.subrange(0, orig.len() as int) =~= orig);
    }
    *cal = out;
}

/// Day-off portions of a calendar counted in half days: a full day is two
/// halves, a half day one.
pub open spec fn spec_count_half_days(s: Seq<(Date, DayOffEntry)>) -> int
    decreases s.len(),
{
    if s.len() == 0 {
        0
    } else {
        spec_count_half_days(s.drop_last()) + match s.last().1.portion {
            DayPortion::Full => 2int,
            DayPortion::Half => 1int,
        }
    }
}

/// Counts the day-off portions of a calendar in half days.
pub fn count_half_days(cal: &Vec<(Date, DayOffEntry)>) -> (r: u64)
    requires
        cal@.len() <= 0x7fff_ffff_ffff_ffff,
    ensures
        r == spec_count_half_days(cal@),
{
    let mut r: u64 = 0;
    let mut i: usize = 0;
    while i < cal.len()
        invariant
            0 <= i <= cal@.len(),
            cal@.len() <= 0x7fff_ffff_ffff_ffff,
            r == spec_count_half_days(cal@.subrange(0, i as int)),
            r <= 2 * i,
        decreases cal@.len() - i,
    {
        let ghost pre = cal@.subrange(0, i as int);
        let ghost cur = cal@.subrange(0, i as int + 1);
        proof {
            assert(cur.drop_last() =~= pre);
            assert(cur.last() == cal@[i as int]);
        }
        r = r + match cal[i].1.portion {
            DayPortion::Full => 2,
            DayPortion::Half => 1,
        };
        i = i + 1;
    }
    proof {
        assert(cal@.subrange(0, cal@.len() as int) =~= cal@);
    }
    r
}

/// Whether a calendar's entries are in strictly increasing date order
/// (and so hold at most one entry per date).
pub open spec fn cal_sorted(s: Seq<(Date, DayOffEntry)>) -> bool {
    forall|i: int, j: int| 0 <= i < j < s.len() ==> s[i].0.days < s[j].0.days
}

/// The entry a calendar records on day `d`, if any.
pub open spec fn spec_cal_find(s: Seq<(Date, DayOffEntry)>, d: int) -> Option<DayOffEntry>
    decreases s.len(),
{
    if s.len() == 0 {
        None
    } else if s[0].0.days == d {
        Some(s[0].1)
    } else {
        spec_cal_find(s.subrange(1, s.len() as int), d)
    }
}

/// A calendar without an entry on day `d` finds none.
proof fn lemma_cal_find_none(s: Seq<(Date, DayOffEntry)>, d: int)
    requires
        forall|i: int| 0 <= i < s.len() ==> (#[trigger] s[i]).0.days != d,
    ensures
        spec_cal_find(s, d) == None::<DayOffEntry>,
    decreases s.len(),
{
    if s.len() > 0 {
        let rest = s.subrange(1, s.len() as int);
        assert(forall|i: int| 0 <= i < rest.len() ==> rest[i] == #[trigger] s[i + 1]);
        lemma_cal_find_none(rest, d);
    }
}

/// The entry found on day `d` is the one at the first index dated `d`.
proof fn lemma_cal_find_at(s: Seq<(Date, DayOffEntry)>, d: int, i: int)
    requires
        0 <= i < s.len(),
        s[i].0.days == d,
        forall|j: int| 0 <= j < i ==> (#[trigger] s[j]).0.days != d,
    ensures
        spec_cal_find(s, d) == Some(s[i].1),
    decreases s.len(),
{
    if i > 0 {
        let rest = s.subrange(1, s.len() as int);
        assert(forall|j: int| 0 <= j < rest.len() ==> rest[j] == #[trigger] s[j + 1]);
        lemma_cal_find_at(rest, d, i - 1);
    }
}

/// Places `entry` in the calendar on `date`, replacing any entry already
/// on that date and keeping the calendar in date order. Entries on other
/// dates are untouched.
pub fn calendar_upsert(cal: &mut Vec<(Date, DayOffEntry)>, date: Date, entry: DayOffEntry)
    requires
        cal_sorted(old(cal)@),
    ensures
        cal_sorted(final (cal)@),
        spec_cal_find(final (cal)@, date.days as int) == Some(entry),
        forall|x: int|
            x != date.days ==> spec_cal_find(final (cal)@, x) == spec_cal_find(old(cal)@, x),
{
    let ghost orig = cal@;
    let mut i: usize = 0;
    while i < cal.len() && cal[i].0.days < date.days
        invariant
            0 <= i <= cal@.len(),
            cal@ == orig,
            cal_sorted(orig),
            forall|k: int| 0 <= k < i ==> (#[trigger] orig[k]).0.days < date.days,
        decreases cal@.len() - i,
    {
        i = i + 1;
    }
    if i < cal.len() && cal[i].0.days == date.days {
        cal.set(i, (date, entry));
        proof {
            let now = cal@;
            assert(now == orig.update(i as int, (date, entry)));
            assert forall|p: int, q: int| 0 <= p < q < now.len() implies now[p].0.days
                < now[q].0.days by {
                assert(orig[p].0.days < orig[q].0.days);
            }
            lemma_cal_find_at(now, date.days as int, i as int);
            assert forall|x: int| x != date.days implies spec_cal_find(now, x) == spec_cal_find(
                orig,
                x,
            ) by {
                lemma_cal_find_update_other(orig, i as int, (date, entry), x);
            }
        }
    } else {
        cal.insert(i, (date, entry));
        proof {
            let now = cal@;
            assert(now == orig.insert(i as int, (date, entry)));
            assert forall|p: int, q: int| 0 <= p < q < now.len() implies now[p].0.days
                < now[q].0.days by {
                if p < i && q > i {
                    assert(orig[p].0.days < date.days);
                    assert(date.days < orig[q - 1].0.days);
                } else if p == i && q > i {
                    assert(date.days < orig[q - 1].0.days);
                } else if p < i && q == i {
                    assert(orig[p].0.days < date.days);
                } else if q < i {
                    assert(orig[p].0.days < orig[q].0.days);
                } else {
                    assert(orig[p - 1].0.days < orig[q - 1].0.days);
                }
            }
            assert forall|k: int| 0 <= k < i implies (#[trigger] now[k]).0.days != date.days by {
                assert(now[k] == orig[k]);
            }
            lemma_cal_find_at(now, date.days as int, i as int);
            assert forall|x: int| x != date.days implies spec_cal_find(now, x) == spec_cal_find(
                orig,
                x,
            ) by {
                lemma_cal_find_insert_other(orig, i as int, (date, entry), x);
            }
        }
    }
}

/// Replacing the entry at a position whose date is not `x` does not
/// change what is found on `x`.
proof fn lemma_cal_find_update_other(
    s: Seq<(Date, DayOffEntry)>,
    i: int,
    e: (Date, DayOffEntry),
    x: int,
)
    requires
        0 <= i < s.len(),
        s[i].0.days != x,
        e.0.days != x,
    ensures
        spec_cal_find(s.update(i, e), x) == spec_cal_find(s, x),
    decreases s.len(),
{
    let t = s.update(i, e);
    if i == 0 {
        assert(t.subrange(1, t.len() as int) =~= s.subrange(1, s.len() as int));
    } else {
        assert(t[0] == s[0]);
        if s[0].0.days != x {
            assert(t.subrange(1, t.len() as int) =~= s.subrange(1, s.len() as int).update(
                i - 1,
                e,
            ));
            lemma_cal_find_update_other(s.subrange(1, s.len() as int), i - 1, e, x);
        }
    }
}

/// Inserting an entry dated other than `x` does not change what is found
/// on `x`.
proof fn lemma_cal_find_insert_other(
    s: Seq<(Date, DayOffEntry)>,
    i: int,
    e: (Date, DayOffEntry),
    x: int,
)
    requires
        0 <= i <= s.len(),
        e.0.days != x,
    ensures
        spec_cal_find(s.insert(i, e), x) == spec_cal_find(s, x),
    decreases s.len(),
{
    let t = s.insert(i, e);
    if i == 0 {
        assert(t[0] == e);
        assert(t.subrange(1, t.len() as int) =~= s);
    } else {
        assert(t[0] == s[0]);
        if s[0].0.days != x {
            assert(t.subrange(1, t.len() as int) =~= s.subrange(1, s.len() as int).insert(
                i - 1,
                e,
            ));
            lemma_cal_find_insert_other(s.subrange(1, s.len() as int), i - 1, e, x);
        }
    }
}

/// Removing an entry dated other than `x` does not change what is found
/// on `x`.
proof fn lemma_cal_find_remove_other(s: Seq<(Date, DayOffEntry)>, i: int, x: int)
    requires
        0 <= i < s.len(),
        s[i].0.days != x,
    ensures
        spec_cal_find(s.remove(i), x) == spec_cal_find(s, x),
    decreases s.len(),
{
    let t = s.remove(i);
    if i == 0 {
        assert(t =~= s.subrange(1, s.len() as int));
    } else {
        assert(t[0] == s[0]);
        if s[0].0.days != x {
            assert(t.subrange(1, t.len() as int) =~= s.subrange(1, s.len() as int).remove(i - 1));
            lemma_cal_find_remove_other(s.subrange(1, s.len() as int), i - 1, x);
        }
    }
}

/// Removes and returns the entry on `date`, if the calendar has one.
/// Entries on other dates are untouched.
pub fn calendar_remove(cal: &mut Vec<(Date, DayOffEntry)>, date: Date) -> (r: Option<DayOffEntry>)
    requires
        cal_sorted(old(cal)@),
    ensures
        cal_sorted(final (cal)@),
        r == spec_cal_find(old(cal)@, date.days as int),
        spec_cal_find(final (cal)@, date.days as int) == None::<DayOffEntry>,
        forall|x: int|
            x != date.days ==> spec_cal_find(final (cal)@, x) == spec_cal_find(old(cal)@, x),
{
    let ghost orig = cal@;
    let mut i: usize = 0;
    while i < cal.len()
        invariant
            0 <= i <= cal@.len(),
            cal@ == orig,
            orig == old(cal)@,
            cal_sorted(orig),
            forall|k: int| 0 <= k < i ==> (#[trigger] orig[k]).0.days != date.days,
        decreases cal@.len() - i,
    {
        if cal[i].0.days == date.days {
            proof {
                lemma_cal_find_at(orig, date.days as int, i as int);
            }
            let removed = cal.remove(i);
            proof {
                let now = cal@;
                assert(now == orig.remove(i as int));
                assert forall|p: int, q: int| 0 <= p < q < now.len() implies now[p].0.days
                    < now[q].0.days by {
                    if q < i {
                        assert(orig[p].0.days < orig[q].0.days);
                    } else if p < i {
                        assert(orig[p].0.days < orig[q + 1].0.days);
                    } else {
                        assert(orig[p + 1].0.days < orig[q + 1].0.days);
                    }
                }
                assert forall|k: int| 0 <= k < now.len() implies (#[trigger] now[k]).0.days
                    != date.days by {
                    if k < i {
                        assert(now[k] == orig[k]);
                    } else {
                        assert(now[k] == orig[k + 1]);
                        assert(orig[i as int].0.days < orig[k + 1].0.days);
                    }
                }
                lemma_cal_find_none(now, date.days as int);
                assert forall|x: int| x != date.days implies spec_cal_find(now, x)
                    == spec_cal_find(orig, x) by {
                    lemma_cal_find_remove_other(orig, i as int, x);
                }
            }
            return Some(removed.1);
        }
        i = i + 1;
    }
    proof {
        lemma_cal_find_none(orig, date.days as int);
    }
    None
}

/// Whether a calendar holds an entry dated `date`.
pub fn calendar_contains(cal: &Vec<(Date, DayOffEntry)>, date: Date) -> (r: bool)
    ensures
        r == (spec_cal_find(cal@, date.days as int) is Some),
{
    let mut i: usize = 0;
    proof {
        assert(cal@.subrange(0, cal@.len() as int) =~= cal@);
    }
    while i < cal.len()
        invariant
            0 <= i <= cal@.len(),
            spec_cal_find(cal@, date.days as int) == spec_cal_find(
                cal@.subrange(i as int, cal@.len() as int),
                date.days as int,
            ),
        decreases cal@.len() - i,
    {
        let ghost rest = cal@.subrange(i as int, cal@.len() as int);
        proof {
            assert(rest[0] == cal@[i as int]);
            assert(rest.subrange(1, rest.len() as int) =~= cal@.subrange(
                i as int + 1,
                cal@.len() as int,
            ));
        }
        if cal[i].0.days == date.days {
            return true;
        }
        i = i + 1;
    }
    proof {
        assert(cal@.subrange(cal@.len() as int, cal@.len() as int).len() == 0);
    }
    false
}

} // verus!
