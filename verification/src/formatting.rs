//! Human-readable rendering of durations and timestamps.
//!
//! A duration prints as its non-zero day, hour, minute and second parts
//! joined by spaces (`1d 2h 3m 4s`), with a lone `0s` for zero and a
//! leading minus for negative durations. A timestamp prints as local
//! `YYYY-MM-DD HH:MM:SS (Day)`.

use crate::date::{
    local_date, spec_day_of_month, spec_local_day, spec_month_of, spec_weekday, spec_year_of,
    valid_instant, valid_offset,
};
use vstd::arithmetic::div_mod::{
    lemma_fundamental_div_mod, lemma_mod_division_less_than_divisor,
};
use vstd::prelude::*;

verus! {

/// The decimal digit character for `d`.
pub open spec fn spec_digit(d: int) -> char {
    if d == 0 {
        '0'
    } else if d == 1 {
        '1'
    } else if d == 2 {
        '2'
    } else if d == 3 {
        '3'
    } else if d == 4 {
        '4'
    } else if d == 5 {
        '5'
    } else if d == 6 {
        '6'
    } else if d == 7 {
        '7'
    } else if d == 8 {
        '8'
    } else {
        '9'
    }
}

/// The decimal digits of `n`, most significant first.
pub open spec fn spec_dec(n: int) -> Seq<char>
    decreases n,
{
    if n < 10 {
        seq![spec_digit(n)]
    } else {
        spec_dec(n / 10).push(spec_digit(n % 10))
    }
}

/// The decimal digits of `n`, zero-padded on the left to two places.
pub open spec fn spec_pad2(n: int) -> Seq<char> {
    if n < 10 {
        seq!['0'] + spec_dec(n)
    } else {
        spec_dec(n)
    }
}

/// The decimal digits of `n`, zero-padded on the left to four places.
pub open spec fn spec_pad4(n: int) -> Seq<char> {
    if n < 10 {
        seq!['0', '0', '0'] + spec_dec(n)
    } else if n < 100 {
        seq!['0', '0'] + spec_dec(n)
    } else if n < 1000 {
        seq!['0'] + spec_dec(n)
    } else {
        spec_dec(n)
    }
}

/// The non-empty parts of a non-negative duration `a`, in seconds: days,
/// hours, minutes and seconds, each suffixed with its unit; the seconds
/// part stands alone when everything is zero.
pub open spec fn spec_duration_parts(a: int) -> Seq<Seq<char>> {
    let days = a / 86400;
    let r1 = a % 86400;
    let hours = r1 / 3600;
    let r2 = r1 % 3600;
    let minutes = r2 / 60;
    let seconds = r2 % 60;
    let p1: Seq<Seq<char>> = if days > 0 {
        seq![spec_dec(days).push('d')]
    } else {
        Seq::empty()
    };
    let p2 = p1 + if hours > 0 {
        seq![spec_dec(hours).push('h')]
    } else {
        Seq::empty()
    };
    let p3 = p2 + if minutes > 0 {
        seq![spec_dec(minutes).push('m')]
    } else {
        Seq::empty()
    };
    if seconds > 0 || p3.len() == 0 {
        p3.push(spec_dec(seconds).push('s'))
    } else {
        p3
    }
}

/// The parts joined with single spaces.
pub open spec fn spec_join_space(parts: Seq<Seq<char>>) -> Seq<char>
    decreases parts.len(),
{
    if parts.len() == 0 {
        Seq::empty()
    } else if parts.len() == 1 {
        parts[0]
    } else {
        spec_join_space(parts.drop_last()).push(' ') + parts.last()
    }
}

/// The rendering of a duration of `secs` seconds.
pub open spec fn spec_format_duration(secs: int) -> Seq<char> {
    let a = if secs < 0 {
        -secs
    } else {
        secs
    };
    let joined = spec_join_space(spec_duration_parts(a));
    if secs < 0 {
        seq!['-'] + joined
    } else {
        joined
    }
}

/// The three-letter name of weekday `w` (Monday = 0).
pub open spec fn spec_weekday_name(w: int) -> Seq<char> {
    if w == 0 {
        seq!['M', 'o', 'n']
    } else if w == 1 {
        seq!['T', 'u', 'e']
    } else if w == 2 {
        seq!['W', 'e', 'd']
    } else if w == 3 {
        seq!['T', 'h', 'u']
    } else if w == 4 {
        seq!['F', 'r', 'i']
    } else if w == 5 {
        seq!['S', 'a', 't']
    } else {
        seq!['S', 'u', 'n']
    }
}

/// The rendering of the instant `ts` in the local zone given by `off`:
/// date, time of day, and weekday name.
pub open spec fn spec_format_timestamp(ts: int, off: int) -> Seq<char> {
    let d = spec_local_day(ts, off);
    let tod = (ts + off) % 86400;
    spec_pad4(spec_year_of(d)).push('-') + spec_pad2(spec_month_of(d)).push('-') + spec_pad2(
        spec_day_of_month(d),
    ).push(' ') + spec_pad2(tod / 3600).push(':') + spec_pad2((tod % 3600) / 60).push(':')
        + spec_pad2(tod % 60).push(' ').push('(') + spec_weekday_name(spec_weekday(d)).push(')')
}

/// The rendering of a period: its two bounds on `From:` and `To:` lines.
pub open spec fn spec_format_timerange(from: int, to: int, off: int) -> Seq<char> {
    seq!['F', 'r', 'o', 'm', ':', ' '] + spec_format_timestamp(from, off).push('\n') + seq![
        'T',
        'o',
        ':',
        ' ',
    ] + spec_format_timestamp(to, off)
}

/// The one-character string for the decimal digit `d`.
fn digit_str(d: u64) -> (r: String)
    requires
        d < 10,
    ensures
        r@ == seq![spec_digit(d as int)],
{
    let s: &str = if d == 0 {
        "0"
    } else if d == 1 {
        "1"
    } else if d == 2 {
        "2"
    } else if d == 3 {
        "3"
    } else if d == 4 {
        "4"
    } else if d == 5 {
        "5"
    } else if d == 6 {
        "6"
    } else if d == 7 {
        "7"
    } else if d == 8 {
        "8"
    } else {
        "9"
    };
    proof {
        reveal_strlit("0");
        reveal_strlit("1");
        reveal_strlit("2");
        reveal_strlit("3");
        reveal_strlit("4");
        reveal_strlit("5");
        reveal_strlit("6");
        reveal_strlit("7");
        reveal_strlit("8");
        reveal_strlit("9");
        assert(s@ =~= seq![spec_digit(d as int)]);
    }
    s.to_owned()
}

/// The decimal rendering of `n`.
pub fn u64_to_string(n: u64) -> (r: String)
    ensures
        r@ == spec_dec(n as int),
    decreases n,
{
    if n < 10 {
        digit_str(n)
    } else {
        let mut s = u64_to_string(n / 10);
        let last = digit_str(n % 10);
        s.append(last.as_str());
        proof {
            assert(s@ =~= spec_dec((n / 10) as int).push(spec_digit((n % 10) as int)));
        }
        s
    }
}

/// The decimal rendering of `n`, zero-padded to two places.
fn pad2_string(n: u64) -> (r: String)
    ensures
        r@ == spec_pad2(n as int),
{
    if n < 10 {
        let mut s = "0".to_owned();
        proof {
            reveal_strlit("0");
        }
        let d = u64_to_string(n);
        s.append(d.as_str());
        proof {
            assert(s@ =~= spec_pad2(n as int));
        }
        s
    } else {
        u64_to_string(n)
    }
}

/// The decimal rendering of `n`, zero-padded to four places.
fn pad4_string(n: u64) -> (r: String)
    ensures
        r@ == spec_pad4(n as int),
{
    let prefix: &str = if n < 10 {
        "000"
    } else if n < 100 {
        "00"
    } else if n < 1000 {
        "0"
    } else {
        ""
    };
    proof {
        reveal_strlit("000");
        reveal_strlit("00");
        reveal_strlit("0");
        reveal_strlit("");
    }
    let mut s = prefix.to_owned();
    let d = u64_to_string(n);
    s.append(d.as_str());
    proof {
        assert(s@ =~= spec_pad4(n as int));
    }
    s
}

/// Renders a duration in seconds as its day, hour, minute and second
/// parts (`1d 2h 3m 4s`), leaving out zero parts, with `0s` for a zero
/// duration and a leading minus for a negative one.
pub fn format_duration(secs: i64) -> (r: String)
    requires
        secs > i64::MIN,
    ensures
        r@ == spec_format_duration(secs as int),
{
    let negative = secs < 0;
    let a: i64 = if negative {
        -secs
    } else {
        secs
    };
    let days: u64 = (a / 86400) as u64;
    let r1: i64 = a % 86400;
    let hours: u64 = (r1 / 3600) as u64;
    let r2: i64 = r1 % 3600;
    let minutes: u64 = (r2 / 60) as u64;
    let seconds: u64 = (r2 % 60) as u64;
    let mut parts: Vec<String> = Vec::new();
    let ghost target = spec_duration_parts(a as int);
    if days > 0 {
        let mut t = u64_to_string(days);
        proof {
            reveal_strlit("d");
        }
        t.append("d");
        proof {
            assert(t@ =~= spec_dec(days as int).push('d'));
        }
        parts.push(t);
    }
    if hours > 0 {
        let mut t = u64_to_string(hours);
        proof {
            reveal_strlit("h");
        }
        t.append("h");
        proof {
            assert(t@ =~= spec_dec(hours as int).push('h'));
        }
        parts.push(t);
    }
    if minutes > 0 {
        let mut t = u64_to_string(minutes);
        proof {
            reveal_strlit("m");
        }
        t.append("m");
        proof {
            assert(t@ =~= spec_dec(minutes as int).push('m'));
        }
        parts.push(t);
    }
    if seconds > 0 || parts.len() == 0 {
        let mut t = u64_to_string(seconds);
        proof {
            reveal_strlit("s");
        }
        t.append("s");
        proof {
            assert(t@ =~= spec_dec(seconds as int).push('s'));
        }
        parts.push(t);
    }
    proof {
        assert(parts.deep_view() =~= target);
    }
    let joined = join_space(&parts);
    if negative {
        let mut m = "-".to_owned();
        proof {
            reveal_strlit("-");
        }
        m.append(joined.as_str());
        proof {
            assert(m@ =~= spec_format_duration(secs as int));
        }
        m
    } else {
        joined
    }
}

/// Joins the parts with single spaces.
fn join_space(parts: &Vec<String>) -> (r: String)
    ensures
        r@ == spec_join_space(parts.deep_view()),
{
    let mut acc = String::new();
    let mut i: usize = 0;
    proof {
        reveal_strlit(" ");
    }
    while i < parts.len()
        invariant
            0 <= i <= parts@.len(),
            parts.deep_view().len() == parts@.len(),
            acc@ == spec_join_space(parts.deep_view().subrange(0, i as int)),
        decreases parts@.len() - i,
    {
        let ghost dv = parts.deep_view();
        let ghost pre = dv.subrange(0, i as int);
        let ghost cur = dv.subrange(0, i as int + 1);
        proof {
            assert(cur.drop_last() =~= pre);
            assert(cur.last() == dv[i as int]);
            assert(dv[i as int] == parts@[i as int]@);
        }
        if i > 0 {
            proof {
                reveal_strlit(" ");
            }
            acc.append(" ");
        }
        acc.append(parts[i].as_str());
        proof {
            if i == 0 {
                assert(cur.len() == 1);
                assert(acc@ =~= cur[0]);
            } else {
                assert(acc@ =~= spec_join_space(pre).push(' ') + cur.last());
            }
        }
        i = i + 1;
    }
    proof {
        assert(parts.deep_view().subrange(0, parts.deep_view().len() as int) =~= parts.deep_view());
    }
    acc
}

/// Renders the instant `ts` as a local date, time of day and weekday
/// name: `YYYY-MM-DD HH:MM:SS (Day)`.
#[verifier::rlimit(60)]
pub fn format_timestamp(ts: i64, offset: i64) -> (r: String)
    requires
        valid_offset(offset as int),
        valid_instant(ts as int, offset as int),
    ensures
        r@ == spec_format_timestamp(ts as int, offset as int),
{
    let d = local_date(ts, offset);
    let (y, m, dom) = d.to_ymd();
    let l: i64 = ts + offset;
    proof {
        lemma_fundamental_div_mod(l as int, 86400);
        lemma_mod_division_less_than_divisor(l as int, 86400);
    }
    let tod: i64 = l - d.days * 86400;
    let hh: u64 = (tod / 3600) as u64;
    let mm: u64 = ((tod % 3600) / 60) as u64;
    let ss: u64 = (tod % 60) as u64;
    proof {
        reveal_strlit("-");
        reveal_strlit(" ");
        reveal_strlit(":");
        reveal_strlit(" (");
        reveal_strlit(")");
    }
    let mut s = pad4_string(y as u64);
    s.append("-");
    let part = pad2_string(m as u64);
    s.append(part.as_str());
    s.append("-");
    let part = pad2_string(dom as u64);
    s.append(part.as_str());
    s.append(" ");
    let part = pad2_string(hh);
    s.append(part.as_str());
    s.append(":");
    let part = pad2_string(mm);
    s.append(part.as_str());
    s.append(":");
    let part = pad2_string(ss);
    s.append(part.as_str());
    s.append(" (");
    let w = d.weekday();
    let wname: &str = if w == 0 {
        "Mon"
    } else if w == 1 {
        "Tue"
    } else if w == 2 {
        "Wed"
    } else if w == 3 {
        "Thu"
    } else if w == 4 {
        "Fri"
    } else if w == 5 {
        "Sat"
    } else {
        "Sun"
    };
    proof {
        reveal_strlit("Mon");
        reveal_strlit("Tue");
        reveal_strlit("Wed");
        reveal_strlit("Thu");
        reveal_strlit("Fri");
        reveal_strlit("Sat");
        reveal_strlit("Sun");
        assert(wname@ =~= spec_weekday_name(spec_weekday(d.days as int)));
    }
    s.append(wname);
    s.append(")");
    proof {
        assert(s@ =~= spec_format_timestamp(ts as int, offset as int));
    }
    s
}

/// Renders a period as its two bounds on `From:` and `To:` lines.
pub fn format_timerange(from: i64, to: i64, offset: i64) -> (r: String)
    requires
        valid_offset(offset as int),
        valid_instant(from as int, offset as int),
        valid_instant(to as int, offset as int),
    ensures
        r@ == spec_format_timerange(from as int, to as int, offset as int),
{
    proof {
        reveal_strlit("From: ");
        reveal_strlit("\n");
        reveal_strlit("To: ");
    }
    let mut s = "From: ".to_owned();
    let part = format_timestamp(from, offset);
    s.append(part.as_str());
    s.append("\n");
    s.append("To: ");
    let part = format_timestamp(to, offset);
    s.append(part.as_str());
    proof {
        assert(s@ =~= spec_format_timerange(from as int, to as int, offset as int));
    }
    s
}

} // verus!
