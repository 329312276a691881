//! Decisions of the tracking commands: start and stop times, tag
//! cleaning, and closing the in-progress frame.
//!
//! All instants are supplied by the caller; nothing here reads a clock.

use crate::frames::clone_strings;
use crate::text::str_eq;
use crate::types::{CurrentFrame, CurrentFrameV, Frame, FrameV, Frames, State};
use vstd::prelude::*;

verus! {

/// Why a tracking command is refused.
#[derive(Clone, Copy, Debug, PartialEq, Eq, Structural)]
pub enum TrackingError {
    AlreadyInProgress,
    NoPreviousFrame,
    NoProjectStarted,
    StartBeforeLastFrameEnd,
    EndBeforeStartTime,
}

/// The frame closed from the in-progress frame `c` at instant `now`.
pub open spec fn spec_close_frame(c: CurrentFrameV, now: int) -> FrameV {
    FrameV {
        start_time: c.start_time,
        end_time: now,
        project: c.project,
        tags: c.tags,
        updated_at: now,
    }
}

/// Closes the in-progress frame at instant `now`.
pub fn close_frame(current: &CurrentFrame, now: i64) -> (r: Frame)
    ensures
        r@ == spec_close_frame(current@, now as int),
{
    Frame {
        start_time: current.start_time,
        end_time: now,
        project: current.project.clone(),
        tags: clone_strings(&current.tags),
        updated_at: now,
    }
}

/// Appends the frame synthesized from the in-progress frame, closed at
/// `now`, when tracking is active; otherwise leaves the frames unchanged.
pub fn with_current_frame(frames: &mut Frames, state: &State, now: i64)
    ensures
        final (frames)@ == old(frames)@ + (match state.current_frame {
            Some(c) => seq![spec_close_frame(c@, now as int)],
            None => Seq::<FrameV>::empty(),
        }),
{
    let ghost orig = frames@;
    match &state.current_frame {
        Some(c) => {
            let f = close_frame(c, now);
            frames.frames.push(f);
            proof {
                assert(frames@ =~= orig + seq![f@]);
            }
        },
        None => {
            proof {
                assert(frames@ =~= orig + Seq::<FrameV>::empty());
            }
        },
    }
}

/// The start time a start request resolves to: an explicit time must not
/// fall before the end of the last saved frame; `no_gap` continues from
/// that end; otherwise tracking starts now.
pub open spec fn spec_start_time(
    at: Option<i64>,
    no_gap: bool,
    last_frame_end: Option<i64>,
    now: i64,
) -> Result<i64, TrackingError> {
    match at {
        Some(a) => match last_frame_end {
            Some(l) => if a < l {
                Err(TrackingError::StartBeforeLastFrameEnd)
            } else {
                Ok(a)
            },
            None => Ok(a),
        },
        None => if no_gap {
            match last_frame_end {
                Some(l) => Ok(l),
                None => Ok(now),
            }
        } else {
            Ok(now)
        },
    }
}

/// Resolves the start time of a start or restart request.
pub fn compute_start_time(
    at: Option<i64>,
    no_gap: bool,
    last_frame_end: Option<i64>,
    now: i64,
) -> (r: Result<i64, TrackingError>)
    ensures
        r == spec_start_time(at, no_gap, last_frame_end, now),
{
    match at {
        Some(a) => match last_frame_end {
            Some(l) => if a < l {
                Err(TrackingError::StartBeforeLastFrameEnd)
            } else {
                Ok(a)
            },
            None => Ok(a),
        },
        None => if no_gap {
            match last_frame_end {
                Some(l) => Ok(l),
                None => Ok(now),
            }
        } else {
            Ok(now)
        },
    }
}

/// The end time a stop request resolves to: an explicit time must fall
/// strictly after the start; otherwise tracking stops now.
pub open spec fn spec_end_time(at: Option<i64>, start_time: i64, now: i64) -> Result<
    i64,
    TrackingError,
> {
    match at {
        Some(a) => if a <= start_time {
            Err(TrackingError::EndBeforeStartTime)
        } else {
            Ok(a)
        },
        None => Ok(now),
    }
}

/// Resolves the end time of a stop request.
pub fn compute_end_time(at: Option<i64>, start_time: i64, now: i64) -> (r: Result<
    i64,
    TrackingError,
>)
    ensures
        r == spec_end_time(at, start_time, now),
{
    match at {
        Some(a) => if a <= start_time {
            Err(TrackingError::EndBeforeStartTime)
        } else {
            Ok(a)
        },
        None => Ok(now),
    }
}

/// The cleaned tag list of a start request: arguments marked with a
/// leading `+` become tags, stripped of the marker; anything else is
/// dropped.
pub open spec fn spec_clean_tags(tags: Seq<Seq<char>>) -> Seq<Seq<char>>
    decreases tags.len(),
{
    if tags.len() == 0 {
        Seq::empty()
    } else {
        let prefix = spec_clean_tags(tags.drop_last());
        let last = tags.last();
        if last.len() > 0 && last[0] == '+' {
            prefix.push(last.subrange(1, last.len() as int))
        } else {
            prefix
        }
    }
}

/// Cleans the tag arguments of a start request.
pub fn clean_tags(tags: &Vec<String>) -> (r: Vec<String>)
    ensures
        r.deep_view() == spec_clean_tags(tags.deep_view()),
{
    let mut r: Vec<String> = Vec::new();
    let mut i: usize = 0;
    while i < tags.len()
        invariant
            0 <= i <= tags@.len(),
            tags.deep_view().len() == tags@.len(),
            r.deep_view() == spec_clean_tags(tags.deep_view().subrange(0, i as int)),
        decreases tags@.len() - i,
    {
        let ghost dv = tags.deep_view();
        let ghost pre = dv.subrange(0, i as int);
        let ghost cur = dv.subrange(0, i as int + 1);
        proof {
            assert(cur.drop_last() =~= pre);
            assert(cur.last() == dv[i as int]);
            assert(dv[i as int] == tags@[i as int]@);
        }
        let t = &tags[i];
        let n = t.as_str().unicode_len();
        if n > 0 && t.as_str().get_char(0) == '+' {
            let stripped = t.as_str().substring_char(1, n).to_owned();
            let ghost prev = r.deep_view();
            r.push(stripped);
            proof {
                assert(r.deep_view() =~= prev.push(stripped@));
            }
        }
        i = i + 1;
    }
    proof {
        assert(tags.deep_view().subrange(0, tags.deep_view().len() as int) =~= tags.deep_view());
    }
    r
}

/// Builds the in-progress frame of a start request from the project
/// name, the raw tag arguments, and the resolved start time.
pub fn build_current_frame(project: &str, tags: &Vec<String>, start_time: i64) -> (r: CurrentFrame)
    ensures
        r@.project == project@,
        r@.tags == spec_clean_tags(tags.deep_view()),
        r@.start_time == start_time,
{
    CurrentFrame { start_time, project: project.to_owned(), tags: clean_tags(tags) }
}

/// What a restart request restarts: refused while a frame is in progress
/// or when nothing was recorded yet; otherwise the last saved frame's
/// project and tags.
pub fn restart_source(state: &State, frames: &Frames) -> (r: Result<
    (String, Vec<String>),
    TrackingError,
>)
    ensures
        state.current_frame is Some ==> r == Err::<(String, Vec<String>), TrackingError>(
            TrackingError::AlreadyInProgress,
        ),
        state.current_frame is None && frames@.len() == 0 ==> r == Err::<
            (String, Vec<String>),
            TrackingError,
        >(TrackingError::NoPreviousFrame),
        state.current_frame is None && frames@.len() > 0 ==> match r {
            Ok(pt) => pt.0@ == frames@.last().project && pt.1.deep_view() == frames@.last().tags,
            Err(_) => false,
        },
{
    if state.current_frame.is_some() {
        return Err(TrackingError::AlreadyInProgress);
    }
    let n = frames.frames.len();
    if n == 0 {
        return Err(TrackingError::NoPreviousFrame);
    }
    proof {
        assert(frames@.last() == frames.frames@[n - 1]@);
    }
    let last = &frames.frames[n - 1];
    Ok((last.project.clone(), clone_strings(&last.tags)))
}

} // verus!
