//! Aggregator: sums the durations of clipped frames into a grand total,
//! a total per project, and a total per tag within each project. A frame
//! counts its whole duration towards each of its tags, so tag totals are
//! not a partition of the project total.

use crate::balance::{
    frames_well_formed, lemma_filter_frames_duration, lemma_prefix_duration_le,
    lemma_prefix_duration_nonneg, spec_synthesized, spec_total_duration, total_duration,
};
use crate::frames::{filter_frames, opt_str_view, spec_filter_frames};
use crate::period::{resolve_timespan, spec_resolve_timespan, PeriodArgs};
use crate::text::{insert_unique_sorted, sorted_unique, str_eq};
use crate::tracking::{spec_close_frame, with_current_frame};
use crate::types::{FrameV, Frames, State, Timespan};
use vstd::prelude::*;

verus! {

/// Aggregated time of one project: its total duration and the duration
/// accounted to each of its tags.
#[derive(Clone, Debug)]
pub struct ProjectDuration {
    pub duration: i64,
    pub tags: Vec<(String, i64)>,
}

/// The aggregated result of a report: per-project durations, the grand
/// total, and the period it covers.
#[derive(Clone, Debug)]
pub struct ReportOutput {
    pub projects: Vec<(String, ProjectDuration)>,
    pub total_duration: i64,
    pub timespan: Timespan,
}

/// Sum of the durations of the frames of project `p`, in seconds.
pub open spec fn spec_project_total(s: Seq<FrameV>, p: Seq<char>) -> int
    decreases s.len(),
{
    if s.len() == 0 {
        0
    } else {
        spec_project_total(s.drop_last(), p) + if s.last().project == p {
            s.last().end_time - s.last().start_time
        } else {
            0
        }
    }
}

/// Sum of the durations of the frames of project `p` bearing tag `t`.
pub open spec fn spec_project_tag_total(s: Seq<FrameV>, p: Seq<char>, t: Seq<char>) -> int
    decreases s.len(),
{
    if s.len() == 0 {
        0
    } else {
        spec_project_tag_total(s.drop_last(), p, t) + if s.last().project == p
            && s.last().tags.contains(t) {
            s.last().end_time - s.last().start_time
        } else {
            0
        }
    }
}

/// Whether some frame belongs to project `p`.
pub open spec fn spec_has_project(s: Seq<FrameV>, p: Seq<char>) -> bool {
    exists|i: int| 0 <= i < s.len() && (#[trigger] s[i]).project == p
}

/// Whether some frame of project `p` bears tag `t`.
pub open spec fn spec_project_has_tag(s: Seq<FrameV>, p: Seq<char>, t: Seq<char>) -> bool {
    exists|i: int| 0 <= i < s.len() && (#[trigger] s[i]).project == p && s[i].tags.contains(t)
}

/// A project's total lies between zero and the grand total.
proof fn lemma_project_total_bounds(s: Seq<FrameV>, p: Seq<char>)
    requires
        frames_well_formed(s),
    ensures
        0 <= spec_project_total(s, p) <= spec_total_duration(s),
    decreases s.len(),
{
    if s.len() > 0 {
        assert(frames_well_formed(s.drop_last())) by {
            assert(forall|i: int|
                0 <= i < s.drop_last().len() ==> #[trigger] s.drop_last()[i] == s[i]);
        }
        lemma_project_total_bounds(s.drop_last(), p);
        assert(s.last() == s[s.len() - 1]);
    }
}

/// A tag's total within a project lies between zero and the grand total.
proof fn lemma_project_tag_total_bounds(s: Seq<FrameV>, p: Seq<char>, t: Seq<char>)
    requires
        frames_well_formed(s),
    ensures
        0 <= spec_project_tag_total(s, p, t) <= spec_total_duration(s),
    decreases s.len(),
{
    if s.len() > 0 {
        assert(frames_well_formed(s.drop_last())) by {
            assert(forall|i: int|
                0 <= i < s.drop_last().len() ==> #[trigger] s.drop_last()[i] == s[i]);
        }
        lemma_project_tag_total_bounds(s.drop_last(), p, t);
        assert(s.last() == s[s.len() - 1]);
    }
}

/// Sum of the durations of the frames of project `p`.
fn project_duration_sum(frames: &Frames, p: &str) -> (r: i64)
    requires
        frames_well_formed(frames@),
        spec_total_duration(frames@) <= i64::MAX,
    ensures
        r == spec_project_total(frames@, p@),
{
    let mut r: i64 = 0;
    let mut i: usize = 0;
    while i < frames.frames.len()
        invariant
            0 <= i <= frames@.len(),
            frames@.len() == frames.frames@.len(),
            frames_well_formed(frames@),
            spec_total_duration(frames@) <= i64::MAX,
            r == spec_project_total(frames@.subrange(0, i as int), p@),
        decreases frames@.len() - i,
    {
        let ghost pre = frames@.subrange(0, i as int);
        let ghost cur = frames@.subrange(0, i as int + 1);
        proof {
            assert(cur.drop_last() =~= pre);
            assert(cur.last() == frames@[i as int]);
            assert(frames@[i as int] == frames.frames@[i as int]@);
            assert(frames_well_formed(pre) && frames_well_formed(cur)) by {
                assert(forall|k: int| 0 <= k < pre.len() ==> #[trigger] pre[k] == frames@[k]);
                assert(forall|k: int| 0 <= k < cur.len() ==> #[trigger] cur[k] == frames@[k]);
            }
            lemma_project_total_bounds(pre, p@);
            lemma_project_total_bounds(cur, p@);
            lemma_prefix_duration_nonneg(frames@, i as int);
            lemma_prefix_duration_le(frames@, i as int);
            lemma_prefix_duration_nonneg(frames@, i as int + 1);
            lemma_prefix_duration_le(frames@, i as int + 1);
            assert(spec_total_duration(pre) <= spec_total_duration(frames@));
            assert(spec_total_duration(cur) <= spec_total_duration(frames@));
        }
        let f = &frames.frames[i];
        if str_eq(f.project.as_str(), p) {
            r = r + (f.end_time - f.start_time);
        }
        i = i + 1;
    }
    proof {
        assert(frames@.subrange(0, frames@.len() as int) =~= frames@);
    }
    r
}

/// Sum of the durations of the frames of project `p` bearing tag `t`.
fn project_tag_duration_sum(frames: &Frames, p: &str, t: &str) -> (r: i64)
    requires
        frames_well_formed(frames@),
        spec_total_duration(frames@) <= i64::MAX,
    ensures
        r == spec_project_tag_total(frames@, p@, t@),
{
    let mut r: i64 = 0;
    let mut i: usize = 0;
    while i < frames.frames.len()
        invariant
            0 <= i <= frames@.len(),
            frames@.len() == frames.frames@.len(),
            frames_well_formed(frames@),
            spec_total_duration(frames@) <= i64::MAX,
            r == spec_project_tag_total(frames@.subrange(0, i as int), p@, t@),
        decreases frames@.len() - i,
    {
        let ghost pre = frames@.subrange(0, i as int);
        let ghost cur = frames@.subrange(0, i as int + 1);
        proof {
            assert(cur.drop_last() =~= pre);
            assert(cur.last() == frames@[i as int]);
            assert(frames@[i as int] == frames.frames@[i as int]@);
            assert(frames_well_formed(pre) && frames_well_formed(cur)) by {
                assert(forall|k: int| 0 <= k < pre.len() ==> #[trigger] pre[k] == frames@[k]);
                assert(forall|k: int| 0 <= k < cur.len() ==> #[trigger] cur[k] == frames@[k]);
            }
            lemma_project_tag_total_bounds(pre, p@, t@);
            lemma_project_tag_total_bounds(cur, p@, t@);
            lemma_prefix_duration_nonneg(frames@, i as int);
            lemma_prefix_duration_le(frames@, i as int);
            lemma_prefix_duration_nonneg(frames@, i as int + 1);
            lemma_prefix_duration_le(frames@, i as int + 1);
        }
        let f = &frames.frames[i];
        if str_eq(f.project.as_str(), p) && crate::text::contains_string(&f.tags, t) {
            proof {
                assert(frames@[i as int].tags == f.tags.deep_view());
            }
            r = r + (f.end_time - f.start_time);
        }
        i = i + 1;
    }
    proof {
        assert(frames@.subrange(0, frames@.len() as int) =~= frames@);
    }
    r
}

/// The tags borne by frames of project `p`, each once, in lexicographic
/// order.
fn project_tags(frames: &Frames, p: &str) -> (r: Vec<String>)
    ensures
        sorted_unique(r.deep_view()),
        forall|t: Seq<char>| r.deep_view().contains(t) <==> spec_project_has_tag(frames@, p@, t),
{
    let mut r: Vec<String> = Vec::new();
    let mut i: usize = 0;
    while i < frames.frames.len()
        invariant
            0 <= i <= frames@.len(),
            frames@.len() == frames.frames@.len(),
            sorted_unique(r.deep_view()),
            forall|t: Seq<char>|
                r.deep_view().contains(t) <==> exists|k: int|
                    0 <= k < i && (#[trigger] frames@[k]).project == p@ && frames@[k].tags.contains(
                        t,
                    ),
        decreases frames@.len() - i,
    {
        proof {
            assert(frames@[i as int] == frames.frames@[i as int]@);
        }
        let f = &frames.frames[i];
        if str_eq(f.project.as_str(), p) {
            let tags = &f.tags;
            let mut j: usize = 0;
            while j < tags.len()
                invariant
                    0 <= j <= tags@.len(),
                    tags.deep_view() == frames@[i as int].tags,
                    frames@[i as int].project == p@,
                    0 <= i < frames@.len(),
                    sorted_unique(r.deep_view()),
                    forall|t: Seq<char>|
                        r.deep_view().contains(t) <==> (exists|k: int|
                            0 <= k < i && (#[trigger] frames@[k]).project == p@
                                && frames@[k].tags.contains(t)) || exists|l: int|
                            0 <= l < j && frames@[i as int].tags[l] == t,
                decreases tags@.len() - j,
            {
                proof {
                    assert(tags.deep_view()[j as int] == tags@[j as int]@);
                }
                let x = tags[j].clone();
                insert_unique_sorted(&mut r, x);
                j = j + 1;
            }
            proof {
                assert forall|t: Seq<char>| r.deep_view().contains(t) implies (exists|k: int|
                    0 <= k <= i && (#[trigger] frames@[k]).project == p@ && frames@[k].tags.contains(
                        t,
                    )) by {
                    if exists|l: int| 0 <= l < tags@.len() && frames@[i as int].tags[l] == t {
                        assert(frames@[i as int].tags.contains(t));
                    }
                }
                assert forall|t: Seq<char>|
                    (exists|k: int|
                        0 <= k <= i && (#[trigger] frames@[k]).project == p@
                            && frames@[k].tags.contains(t)) implies r.deep_view().contains(t) by {
                    let k = choose|k: int|
                        0 <= k <= i && (#[trigger] frames@[k]).project == p@
                            && frames@[k].tags.contains(t);
                    if k == i {
                        let l = choose|l: int|
                            0 <= l < frames@[i as int].tags.len() && frames@[i as int].tags[l] == t;
                        assert(0 <= l < tags@.len() && frames@[i as int].tags[l] == t);
                    }
                }
            }
        } else {
            proof {
                assert forall|t: Seq<char>|
                    (exists|k: int|
                        0 <= k <= i && (#[trigger] frames@[k]).project == p@
                            && frames@[k].tags.contains(t)) implies r.deep_view().contains(t) by {
                    let k = choose|k: int|
                        0 <= k <= i && (#[trigger] frames@[k]).project == p@
                            && frames@[k].tags.contains(t);
                    assert(k < i);
                }
            }
        }
        i = i + 1;
    }
    r
}

/// Aggregates the frames: the grand total in seconds, and for each
/// project occurring in the frames — listed once, in lexicographic order
/// — its total duration and the total of each tag its frames bear.
pub fn total_duration_by_project(frames: &Frames) -> (r: (Vec<(String, ProjectDuration)>, i64))
    requires
        frames_well_formed(frames@),
        spec_total_duration(frames@) <= i64::MAX,
    ensures
        r.1 == spec_total_duration(frames@),
        sorted_unique(r.0@.map_values(|e: (String, ProjectDuration)| e.0@)),
        forall|p: Seq<char>|
            (exists|j: int| 0 <= j < r.0@.len() && (#[trigger] r.0@[j]).0@ == p) <==> spec_has_project(
                frames@,
                p,
            ),
        forall|j: int|
            0 <= j < r.0@.len() ==> {
                let p = (#[trigger] r.0@[j]).0@;
                let pd = r.0@[j].1;
                &&& pd.duration == spec_project_total(frames@, p)
                &&& sorted_unique(pd.tags@.map_values(|e: (String, i64)| e.0@))
                &&& forall|t: Seq<char>|
                    (exists|l: int| 0 <= l < pd.tags@.len() && (#[trigger] pd.tags@[l]).0@ == t)
                        <==> spec_project_has_tag(frames@, p, t)
                &&& forall|l: int|
                    0 <= l < pd.tags@.len() ==> (#[trigger] pd.tags@[l]).1
                        == spec_project_tag_total(frames@, p, pd.tags@[l].0@)
            },
{
    let total = total_duration(frames);
    let names = frames.all_projects();
    let mut out: Vec<(String, ProjectDuration)> = Vec::new();
    let mut i: usize = 0;
    while i < names.len()
        invariant
            0 <= i <= names@.len(),
            frames_well_formed(frames@),
            spec_total_duration(frames@) <= i64::MAX,
            sorted_unique(names.deep_view()),
            forall|p: Seq<char>|
                names.deep_view().contains(p) <==> spec_has_project(frames@, p),
            out@.len() == i,
            forall|j: int| 0 <= j < i ==> (#[trigger] out@[j]).0@ == names.deep_view()[j],
            forall|j: int|
                0 <= j < i ==> {
                    let p = (#[trigger] out@[j]).0@;
                    let pd = out@[j].1;
                    &&& pd.duration == spec_project_total(frames@, p)
                    &&& sorted_unique(pd.tags@.map_values(|e: (String, i64)| e.0@))
                    &&& forall|t: Seq<char>|
                        (exists|l: int| 0 <= l < pd.tags@.len() && (#[trigger] pd.tags@[l]).0@ == t)
                            <==> spec_project_has_tag(frames@, p, t)
                    &&& forall|l: int|
                        0 <= l < pd.tags@.len() ==> (#[trigger] pd.tags@[l]).1
                            == spec_project_tag_total(frames@, p, pd.tags@[l].0@)
                },
        decreases names@.len() - i,
    {
        proof {
            assert(names.deep_view()[i as int] == names@[i as int]@);
        }
        let name = &names[i];
        let duration = project_duration_sum(frames, name.as_str());
        let tag_names = project_tags(frames, name.as_str());
        let mut tags: Vec<(String, i64)> = Vec::new();
        let mut l: usize = 0;
        while l < tag_names.len()
            invariant
                0 <= l <= tag_names@.len(),
                frames_well_formed(frames@),
                spec_total_duration(frames@) <= i64::MAX,
                sorted_unique(tag_names.deep_view()),
                forall|t: Seq<char>|
                    tag_names.deep_view().contains(t) <==> spec_project_has_tag(
                        frames@,
                        name@,
                        t,
                    ),
                tags@.len() == l,
                forall|k: int|
                    0 <= k < l ==> (#[trigger] tags@[k]).0@ == tag_names.deep_view()[k],
                forall|k: int|
                    0 <= k < l ==> (#[trigger] tags@[k]).1 == spec_project_tag_total(
                        frames@,
                        name@,
                        tags@[k].0@,
                    ),
            decreases tag_names@.len() - l,
        {
            proof {
                assert(tag_names.deep_view()[l as int] == tag_names@[l as int]@);
            }
            let t = &tag_names[l];
            let d = project_tag_duration_sum(frames, name.as_str(), t.as_str());
            tags.push((t.clone(), d));
            l = l + 1;
        }
        proof {
            let tv = tags@.map_values(|e: (String, i64)| e.0@);
            assert(tv =~= tag_names.deep_view());
            assert forall|t: Seq<char>|
                (exists|k: int| 0 <= k < tags@.len() && (#[trigger] tags@[k]).0@ == t)
                <==> spec_project_has_tag(frames@, name@, t) by {
                if exists|k: int| 0 <= k < tags@.len() && (#[trigger] tags@[k]).0@ == t {
                    let k = choose|k: int|
                        0 <= k < tags@.len() && (#[trigger] tags@[k]).0@ == t;
                    assert(tag_names.deep_view()[k] == t);
                    assert(tag_names.deep_view().contains(t));
                }
                if spec_project_has_tag(frames@, name@, t) {
                    assert(tag_names.deep_view().contains(t));
                    let k = choose|k: int|
                        0 <= k < tag_names.deep_view().len() && #[trigger] tag_names.deep_view()[k]
                            == t;
                    assert(tags@[k].0@ == t);
                }
            }
        }
        out.push((name.clone(), ProjectDuration { duration, tags }));
        i = i + 1;
    }
    proof {
        let keys = out@.map_values(|e: (String, ProjectDuration)| e.0@);
        assert(keys =~= names.deep_view());
        assert forall|p: Seq<char>|
            (exists|j: int| 0 <= j < out@.len() && (#[trigger] out@[j]).0@ == p)
            <==> spec_has_project(frames@, p) by {
            if exists|j: int| 0 <= j < out@.len() && (#[trigger] out@[j]).0@ == p {
                let j = choose|j: int| 0 <= j < out@.len() && (#[trigger] out@[j]).0@ == p;
                assert(names.deep_view()[j] == p);
                assert(names.deep_view().contains(p));
            }
            if spec_has_project(frames@, p) {
                let j = choose|j: int|
                    0 <= j < names.deep_view().len() && names.deep_view()[j] == p;
                assert(out@[j].0@ == p);
            }
        }
    }
    (out, total)
}

/// Computes the activity report of the requested period: the in-progress
/// frame, if any, is closed at `now` and counted; the period is resolved
/// against `now` and the frames; the frames are clipped to it and run
/// through the optional project and tag filters; and what is left is
/// aggregated by project and tag.
pub fn report_summary(
    frames: Frames,
    state: &State,
    args: &PeriodArgs,
    project: Option<&str>,
    tag: Option<&str>,
    now: i64,
    offset: i64,
) -> (r: ReportOutput)
    requires
        crate::date::valid_offset(offset as int),
        crate::date::valid_instant(now as int, offset as int),
        frames_well_formed(frames@),
        (match state.current_frame {
            Some(c) => c.start_time <= now,
            None => true,
        }),
        spec_total_duration(spec_synthesized(frames@, *state, now as int)) <= i64::MAX,
    ensures
        ({
            let synth = spec_synthesized(frames@, *state, now as int);
            let resolved = spec_resolve_timespan(*args, now as int, synth, offset as int);
            let clipped = spec_filter_frames(
                synth,
                resolved.0,
                resolved.1,
                opt_str_view(project),
                opt_str_view(tag),
            );
            &&& r.timespan.from == resolved.0
            &&& r.timespan.to == resolved.1
            &&& r.total_duration == spec_total_duration(clipped)
            &&& sorted_unique(r.projects@.map_values(|e: (String, ProjectDuration)| e.0@))
            &&& forall|p: Seq<char>|
                (exists|j: int| 0 <= j < r.projects@.len() && (#[trigger] r.projects@[j]).0@ == p)
                    <==> spec_has_project(clipped, p)
            &&& forall|j: int|
                0 <= j < r.projects@.len() ==> {
                    let p = (#[trigger] r.projects@[j]).0@;
                    let pd = r.projects@[j].1;
                    &&& pd.duration == spec_project_total(clipped, p)
                    &&& sorted_unique(pd.tags@.map_values(|e: (String, i64)| e.0@))
                    &&& forall|t: Seq<char>|
                        (exists|l: int| 0 <= l < pd.tags@.len() && (#[trigger] pd.tags@[l]).0@ == t)
                            <==> spec_project_has_tag(clipped, p, t)
                    &&& forall|l: int|
                        0 <= l < pd.tags@.len() ==> (#[trigger] pd.tags@[l]).1
                            == spec_project_tag_total(clipped, p, pd.tags@[l].0@)
                }
        }),
{
    let ghost orig = frames@;
    let ghost synth = spec_synthesized(orig, *state, now as int);
    let mut frames = frames;
    with_current_frame(&mut frames, state, now);
    proof {
        assert(frames@ == synth);
        assert forall|i: int| 0 <= i < synth.len() implies (#[trigger] synth[i]).end_time
            >= synth[i].start_time by {
            if i < orig.len() {
                assert(synth[i] == orig[i]);
            } else {
                match state.current_frame {
                    Some(c) => {
                        assert(synth[i] == spec_close_frame(c@, now as int));
                    },
                    None => {
                        assert(false);
                    },
                }
            }
        }
        assert(frames_well_formed(synth));
    }
    let timespan = resolve_timespan(args, now, &frames.frames, offset);
    filter_frames(&mut frames, &timespan, project, tag);
    proof {
        lemma_filter_frames_duration(
            synth,
            timespan.from as int,
            timespan.to as int,
            opt_str_view(project),
            opt_str_view(tag),
        );
    }
    let (projects, total_duration) = total_duration_by_project(&frames);
    ReportOutput { projects, total_duration, timespan }
}

} // verus!
