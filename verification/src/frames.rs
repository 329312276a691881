//! Filtering and clipping of recorded frames to a reporting period, and
//! maintenance operations on the frame collection (project and tag
//! renames, tag removal, listings).
//!
//! A frame is kept for a period `[from, to]` when any part of it lies
//! inside the period; a frame crossing a boundary is clipped to it. The
//! start boundary is applied first, then the end boundary, then the
//! optional project and tag filters.

use crate::text::{contains_string, insert_unique_sorted, sorted_unique, str_eq};
use crate::types::{frame_views, Frame, FrameV, Frames, Timespan};
use vstd::prelude::*;

verus! {

/// Whether a frame survives the start-boundary pass at `from`.
pub open spec fn spec_keep_start(f: FrameV, from: int) -> bool {
    (f.start_time < from && f.end_time > from) || f.start_time >= from
}

/// The frame after the start-boundary pass: a frame that crosses `from`
/// has its start clipped to `from`.
pub open spec fn spec_clip_start(f: FrameV, from: int) -> FrameV {
    if f.start_time < from && f.end_time > from {
        FrameV { start_time: from, ..f }
    } else {
        f
    }
}

/// Whether a frame survives the end-boundary pass at `to`.
pub open spec fn spec_keep_end(f: FrameV, to: int) -> bool {
    (f.start_time < to && f.end_time > to) || f.end_time <= to
}

/// The frame after the end-boundary pass: a frame that crosses `to` has
/// its end clipped to `to`.
pub open spec fn spec_clip_end(f: FrameV, to: int) -> FrameV {
    if f.start_time < to && f.end_time > to {
        FrameV { end_time: to, ..f }
    } else {
        f
    }
}

/// The start-boundary pass over a frame list.
pub open spec fn spec_filter_start(s: Seq<FrameV>, from: int) -> Seq<FrameV>
    decreases s.len(),
{
    if s.len() == 0 {
        Seq::empty()
    } else {
        let prefix = spec_filter_start(s.drop_last(), from);
        if spec_keep_start(s.last(), from) {
            prefix.push(spec_clip_start(s.last(), from))
        } else {
            prefix
        }
    }
}

/// The end-boundary pass over a frame list.
pub open spec fn spec_filter_end(s: Seq<FrameV>, to: int) -> Seq<FrameV>
    decreases s.len(),
{
    if s.len() == 0 {
        Seq::empty()
    } else {
        let prefix = spec_filter_end(s.drop_last(), to);
        if spec_keep_end(s.last(), to) {
            prefix.push(spec_clip_end(s.last(), to))
        } else {
            prefix
        }
    }
}

/// The frames whose project is exactly `p`.
pub open spec fn spec_filter_project(s: Seq<FrameV>, p: Seq<char>) -> Seq<FrameV>
    decreases s.len(),
{
    if s.len() == 0 {
        Seq::empty()
    } else {
        let prefix = spec_filter_project(s.drop_last(), p);
        if s.last().project == p {
            prefix.push(s.last())
        } else {
            prefix
        }
    }
}

/// The frames bearing the tag `t`.
pub open spec fn spec_filter_tag(s: Seq<FrameV>, t: Seq<char>) -> Seq<FrameV>
    decreases s.len(),
{
    if s.len() == 0 {
        Seq::empty()
    } else {
        let prefix = spec_filter_tag(s.drop_last(), t);
        if s.last().tags.contains(t) {
            prefix.push(s.last())
        } else {
            prefix
        }
    }
}

/// The view of an optional string filter.
pub open spec fn opt_str_view(o: Option<&str>) -> Option<Seq<char>> {
    match o {
        Some(s) => Some(s@),
        None => None,
    }
}

/// The whole filter pipeline of a report: an inverted period yields no
/// frames; otherwise the start pass, the end pass, and the optional
/// project and tag filters are applied in that order.
pub open spec fn spec_filter_frames(
    s: Seq<FrameV>,
    from: int,
    to: int,
    p: Option<Seq<char>>,
    t: Option<Seq<char>>,
) -> Seq<FrameV> {
    if from > to {
        Seq::empty()
    } else {
        let s1 = spec_filter_start(s, from);
        let s2 = spec_filter_end(s1, to);
        let s3 = match p {
            Some(pv) => spec_filter_project(s2, pv),
            None => s2,
        };
        match t {
            Some(tv) => spec_filter_tag(s3, tv),
            None => s3,
        }
    }
}

/// Whether `g` is an element of `s`.
pub open spec fn seq_has(s: Seq<FrameV>, g: FrameV) -> bool {
    exists|j: int| 0 <= j < s.len() && s[j] == g
}

/// Every frame surviving the start pass starts at or after `from`.
pub proof fn lemma_filter_start_elems(s: Seq<FrameV>, from: int)
    ensures
        forall|i: int|
            0 <= i < spec_filter_start(s, from).len() ==> (#[trigger] spec_filter_start(s, from)[i])
                .start_time >= from,
    decreases s.len(),
{
    if s.len() > 0 {
        lemma_filter_start_elems(s.drop_last(), from);
        let r = spec_filter_start(s, from);
        let prefix = spec_filter_start(s.drop_last(), from);
        assert forall|i: int| 0 <= i < r.len() implies (#[trigger] r[i]).start_time >= from by {
            if i < prefix.len() {
                assert(r[i] == prefix[i]);
            } else {
                assert(r[i] == spec_clip_start(s.last(), from));
            }
        }
    }
}

/// The start pass leaves a list unchanged when every frame already starts
/// at or after `from`.
pub proof fn lemma_filter_start_noop(s: Seq<FrameV>, from: int)
    requires
        forall|i: int| 0 <= i < s.len() ==> (#[trigger] s[i]).start_time >= from,
    ensures
        spec_filter_start(s, from) == s,
    decreases s.len(),
{
    if s.len() == 0 {
        assert(spec_filter_start(s, from) =~= s);
    } else {
        lemma_filter_start_noop(s.drop_last(), from);
        assert(s.last() == s[s.len() - 1]);
        assert(spec_filter_start(s, from) =~= s);
    }
}

/// Every frame surviving the end pass ends at or before `to`.
pub proof fn lemma_filter_end_elems(s: Seq<FrameV>, to: int)
    ensures
        forall|i: int|
            0 <= i < spec_filter_end(s, to).len() ==> (#[trigger] spec_filter_end(s, to)[i])
                .end_time <= to,
    decreases s.len(),
{
    if s.len() > 0 {
        lemma_filter_end_elems(s.drop_last(), to);
        let r = spec_filter_end(s, to);
        let prefix = spec_filter_end(s.drop_last(), to);
        assert forall|i: int| 0 <= i < r.len() implies (#[trigger] r[i]).end_time <= to by {
            if i < prefix.len() {
                assert(r[i] == prefix[i]);
            } else {
                assert(r[i] == spec_clip_end(s.last(), to));
            }
        }
    }
}

/// The end pass never moves a frame's start.
pub proof fn lemma_filter_end_preserves_start(s: Seq<FrameV>, to: int, from: int)
    requires
        forall|i: int| 0 <= i < s.len() ==> (#[trigger] s[i]).start_time >= from,
    ensures
        forall|i: int|
            0 <= i < spec_filter_end(s, to).len() ==> (#[trigger] spec_filter_end(s, to)[i])
                .start_time >= from,
    decreases s.len(),
{
    if s.len() > 0 {
        lemma_filter_end_preserves_start(s.drop_last(), to, from);
        assert(s.last() == s[s.len() - 1]);
        let r = spec_filter_end(s, to);
        let prefix = spec_filter_end(s.drop_last(), to);
        assert forall|i: int| 0 <= i < r.len() implies (#[trigger] r[i]).start_time >= from by {
            if i < prefix.len() {
                assert(r[i] == prefix[i]);
            } else {
                assert(r[i] == spec_clip_end(s.last(), to));
            }
        }
    }
}

/// The end pass leaves a list unchanged when every frame already ends at
/// or before `to`.
pub proof fn lemma_filter_end_noop(s: Seq<FrameV>, to: int)
    requires
        forall|i: int| 0 <= i < s.len() ==> (#[trigger] s[i]).end_time <= to,
    ensures
        spec_filter_end(s, to) == s,
    decreases s.len(),
{
    if s.len() == 0 {
        assert(spec_filter_end(s, to) =~= s);
    } else {
        lemma_filter_end_noop(s.drop_last(), to);
        assert(s.last() == s[s.len() - 1]);
        assert(spec_filter_end(s, to) =~= s);
    }
}

/// Every frame surviving the project filter is one of the input frames
/// and has the requested project.
pub proof fn lemma_filter_project_origin(s: Seq<FrameV>, p: Seq<char>)
    ensures
        forall|i: int|
            0 <= i < spec_filter_project(s, p).len() ==> seq_has(
                s,
                #[trigger] spec_filter_project(s, p)[i],
            ) && spec_filter_project(s, p)[i].project == p,
    decreases s.len(),
{
    if s.len() > 0 {
        lemma_filter_project_origin(s.drop_last(), p);
        assert forall|i: int| 0 <= i < spec_filter_project(s, p).len() implies seq_has(
            s,
            #[trigger] spec_filter_project(s, p)[i],
        ) && spec_filter_project(s, p)[i].project == p by {
            let r = spec_filter_project(s, p);
            let prefix = spec_filter_project(s.drop_last(), p);
            if i < prefix.len() {
                let j = choose|j: int| 0 <= j < s.drop_last().len() && s.drop_last()[j] == prefix[i];
                assert(s[j] == r[i]);
            } else {
                assert(s[s.len() - 1] == r[i]);
            }
        }
    }
}

/// The project filter keeps a list in which every frame has the requested
/// project.
pub proof fn lemma_filter_project_noop(s: Seq<FrameV>, p: Seq<char>)
    requires
        forall|i: int| 0 <= i < s.len() ==> (#[trigger] s[i]).project == p,
    ensures
        spec_filter_project(s, p) == s,
    decreases s.len(),
{
    if s.len() == 0 {
        assert(spec_filter_project(s, p) =~= s);
    } else {
        lemma_filter_project_noop(s.drop_last(), p);
        assert(s.last() == s[s.len() - 1]);
        assert(spec_filter_project(s, p) =~= s);
    }
}

/// Every frame surviving the tag filter is one of the input frames and
/// bears the requested tag.
pub proof fn lemma_filter_tag_origin(s: Seq<FrameV>, t: Seq<char>)
    ensures
        forall|i: int|
            0 <= i < spec_filter_tag(s, t).len() ==> seq_has(
                s,
                #[trigger] spec_filter_tag(s, t)[i],
            ) && spec_filter_tag(s, t)[i].tags.contains(t),
    decreases s.len(),
{
    if s.len() > 0 {
        lemma_filter_tag_origin(s.drop_last(), t);
        assert forall|i: int| 0 <= i < spec_filter_tag(s, t).len() implies seq_has(
            s,
            #[trigger] spec_filter_tag(s, t)[i],
        ) && spec_filter_tag(s, t)[i].tags.contains(t) by {
            let r = spec_filter_tag(s, t);
            let prefix = spec_filter_tag(s.drop_last(), t);
            if i < prefix.len() {
                let j = choose|j: int| 0 <= j < s.drop_last().len() && s.drop_last()[j] == prefix[i];
                assert(s[j] == r[i]);
            } else {
                assert(s[s.len() - 1] == r[i]);
            }
        }
    }
}

/// The tag filter keeps a list in which every frame bears the requested
/// tag.
pub proof fn lemma_filter_tag_noop(s: Seq<FrameV>, t: Seq<char>)
    requires
        forall|i: int| 0 <= i < s.len() ==> (#[trigger] s[i]).tags.contains(t),
    ensures
        spec_filter_tag(s, t) == s,
    decreases s.len(),
{
    if s.len() == 0 {
        assert(spec_filter_tag(s, t) =~= s);
    } else {
        lemma_filter_tag_noop(s.drop_last(), t);
        assert(s.last() == s[s.len() - 1]);
        assert(spec_filter_tag(s, t) =~= s);
    }
}

/// Law: filtering an already clipped and filtered frame list again with
/// the same period and filters returns it unchanged.
pub proof fn lemma_filter_frames_idempotent(
    s: Seq<FrameV>,
    from: int,
    to: int,
    p: Option<Seq<char>>,
    t: Option<Seq<char>>,
)
    ensures
        spec_filter_frames(spec_filter_frames(s, from, to, p, t), from, to, p, t)
            == spec_filter_frames(s, from, to, p, t),
{
    if from > to {
        return ;
    }
    let s1 = spec_filter_start(s, from);
    let s2 = spec_filter_end(s1, to);
    let s3 = match p {
        Some(pv) => spec_filter_project(s2, pv),
        None => s2,
    };
    let s4 = match t {
        Some(tv) => spec_filter_tag(s3, tv),
        None => s3,
    };
    lemma_filter_start_elems(s, from);
    lemma_filter_end_preserves_start(s1, to, from);
    lemma_filter_end_elems(s1, to);
    if p is Some {
        let pv = p->0;
        lemma_filter_project_origin(s2, pv);
        assert forall|i: int| 0 <= i < s3.len() implies (#[trigger] s3[i]).start_time >= from
            && s3[i].end_time <= to by {
            let j = choose|j: int| 0 <= j < s2.len() && s2[j] == s3[i];
        }
    }
    if t is Some {
        let tv = t->0;
        lemma_filter_tag_origin(s3, tv);
        assert forall|i: int| 0 <= i < s4.len() implies (#[trigger] s4[i]).start_time >= from
            && s4[i].end_time <= to by {
            let j = choose|j: int| 0 <= j < s3.len() && s3[j] == s4[i];
        }
        if p is Some {
            assert forall|i: int| 0 <= i < s4.len() implies (#[trigger] s4[i]).project == p->0 by {
                let j = choose|j: int| 0 <= j < s3.len() && s3[j] == s4[i];
            }
        }
    }
    lemma_filter_start_noop(s4, from);
    lemma_filter_end_noop(s4, to);
    if p is Some {
        lemma_filter_project_noop(s4, p->0);
    }
    if t is Some {
        lemma_filter_tag_noop(s4, t->0);
    }
}

/// Law: how one frame fares against the period `[from, to]`. A frame
/// crossing only the start boundary is clipped to it; one crossing only
/// the end boundary is clipped to it; one lying fully inside is kept
/// unchanged; one lying fully outside is dropped.
pub proof fn lemma_clipping_cases(f: FrameV, from: int, to: int)
    requires
        from <= to,
    ensures
        f.start_time < from && from < f.end_time <= to ==> spec_filter_end(
            spec_filter_start(seq![f], from),
            to,
        ) == seq![(FrameV { start_time: from, ..f })],
        from <= f.start_time && f.start_time < to && to < f.end_time ==> spec_filter_end(
            spec_filter_start(seq![f], from),
            to,
        ) == seq![(FrameV { end_time: to, ..f })],
        from <= f.start_time && f.end_time <= to ==> spec_filter_end(
            spec_filter_start(seq![f], from),
            to,
        ) == seq![f],
        (f.end_time <= from && f.start_time < from) || (f.start_time >= to && f.end_time > to)
            ==> spec_filter_end(spec_filter_start(seq![f], from), to) == Seq::<FrameV>::empty(),
{
    let one = seq![f];
    assert(one.drop_last() =~= Seq::<FrameV>::empty());
    assert(one.last() == f);
    assert(spec_filter_start(Seq::<FrameV>::empty(), from) =~= Seq::<FrameV>::empty());
    assert(spec_filter_end(Seq::<FrameV>::empty(), to) =~= Seq::<FrameV>::empty());
    let s1 = spec_filter_start(one, from);
    if spec_keep_start(f, from) {
        let g = spec_clip_start(f, from);
        assert(s1 =~= seq![g]);
        assert(s1.drop_last() =~= Seq::<FrameV>::empty());
        assert(s1.last() == g);
        if spec_keep_end(g, to) {
            assert(spec_filter_end(s1, to) =~= seq![spec_clip_end(g, to)]);
        } else {
            assert(spec_filter_end(s1, to) =~= Seq::<FrameV>::empty());
        }
    } else {
        assert(s1 =~= Seq::<FrameV>::empty());
        assert(spec_filter_end(s1, to) =~= Seq::<FrameV>::empty());
    }
}

/// Copies a list of strings; the copy holds the same strings.
pub fn clone_strings(v: &Vec<String>) -> (r: Vec<String>)
    ensures
        r@ == v@,
{
    let mut r: Vec<String> = Vec::new();
    let mut i: usize = 0;
    while i < v.len()
        invariant
            0 <= i <= v@.len(),
            r@ =~= v@.subrange(0, i as int),
        decreases v@.len() - i,
    {
        r.push(v[i].clone());
        i = i + 1;
    }
    proof {
        assert(r@ =~= v@);
    }
    r
}

/// Copies a frame; the copy has the same value.
pub fn clone_frame(f: &Frame) -> (r: Frame)
    ensures
        r@ == f@,
{
    Frame {
        start_time: f.start_time,
        end_time: f.end_time,
        project: f.project.clone(),
        tags: clone_strings(&f.tags),
        updated_at: f.updated_at,
    }
}

impl Frames {
    /// Drops the frames that end at or before `from` and clips to `from`
    /// the frames that cross it.
    pub fn filter_by_start_time(&mut self, from: i64)
        ensures
            final (self)@ == spec_filter_start(old(self)@, from as int),
    {
        let ghost orig = self@;
        let mut out: Vec<Frame> = Vec::new();
        let mut i: usize = 0;
        while i < self.frames.len()
            invariant
                0 <= i <= self.frames@.len(),
                self@ == orig,
                orig.len() == self.frames@.len(),
                frame_views(out@) == spec_filter_start(orig.subrange(0, i as int), from as int),
            decreases self.frames@.len() - i,
        {
            let ghost pre = orig.subrange(0, i as int);
            let ghost cur = orig.subrange(0, i as int + 1);
            proof {
                assert(cur.drop_last() =~= pre);
                assert(cur.last() == orig[i as int]);
                assert(orig[i as int] == self.frames@[i as int]@);
            }
            let f = &self.frames[i];
            if (f.start_time < from && f.end_time > from) || f.start_time >= from {
                let g = if f.start_time < from && f.end_time > from {
                    Frame {
                        start_time: from,
                        end_time: f.end_time,
                        project: f.project.clone(),
                        tags: clone_strings(&f.tags),
                        updated_at: f.updated_at,
                    }
                } else {
                    clone_frame(f)
                };
                proof {
                    assert(g@ == spec_clip_start(orig[i as int], from as int));
                }
                let ghost prev = out@;
                out.push(g);
                proof {
                    assert(frame_views(out@) =~= frame_views(prev).push(g@));
                }
            }
            i = i + 1;
        }
        proof {
            assert(orig.subrange(0, orig.len() as int) =~= orig);
        }
        self.frames = out;
    }

    /// Drops the frames that start at or after `to` and clips to `to` the
    /// frames that cross it.
    pub fn filter_by_end_time(&mut self, to: i64)
        ensures
            final (self)@ == spec_filter_end(old(self)@, to as int),
    {
        let ghost orig = self@;
        let mut out: Vec<Frame> = Vec::new();
        let mut i: usize = 0;
        while i < self.frames.len()
            invariant
                0 <= i <= self.frames@.len(),
                self@ == orig,
                orig.len() == self.frames@.len(),
                frame_views(out@) == spec_filter_end(orig.subrange(0, i as int), to as int),
            decreases self.frames@.len() - i,
        {
            let ghost pre = orig.subrange(0, i as int);
            let ghost cur = orig.subrange(0, i as int + 1);
            proof {
                assert(cur.drop_last() =~= pre);
                assert(cur.last() == orig[i as int]);
                assert(orig[i as int] == self.frames@[i as int]@);
            }
            let f = &self.frames[i];
            if (f.start_time < to && f.end_time > to) || f.end_time <= to {
                let g = if f.start_time < to && f.end_time > to {
                    Frame {
                        start_time: f.start_time,
                        end_time: to,
                        project: f.project.clone(),
                        tags: clone_strings(&f.tags),
                        updated_at: f.updated_at,
                    }
                } else {
                    clone_frame(f)
                };
                proof {
                    assert(g@ == spec_clip_end(orig[i as int], to as int));
                }
                let ghost prev = out@;
                out.push(g);
                proof {
                    assert(frame_views(out@) =~= frame_views(prev).push(g@));
                }
            }
            i = i + 1;
        }
        proof {
            assert(orig.subrange(0, orig.len() as int) =~= orig);
        }
        self.frames = out;
    }

    /// Keeps only the frames of the given project.
    pub fn filter_by_project(&mut self, project: &str)
        ensures
            final (self)@ == spec_filter_project(old(self)@, project@),
    {
        let ghost orig = self@;
        let mut out: Vec<Frame> = Vec::new();
        let mut i: usize = 0;
        while i < self.frames.len()
            invariant
                0 <= i <= self.frames@.len(),
                self@ == orig,
                orig.len() == self.frames@.len(),
                frame_views(out@) == spec_filter_project(orig.subrange(0, i as int), project@),
            decreases self.frames@.len() - i,
        {
            let ghost pre = orig.subrange(0, i as int);
            let ghost cur = orig.subrange(0, i as int + 1);
            proof {
                assert(cur.drop_last() =~= pre);
                assert(cur.last() == orig[i as int]);
                assert(orig[i as int] == self.frames@[i as int]@);
            }
            let f = &self.frames[i];
            if str_eq(f.project.as_str(), project) {
                let g = clone_frame(f);
                let ghost prev = out@;
                out.push(g);
                proof {
                    assert(frame_views(out@) =~= frame_views(prev).push(g@));
                }
            }
            i = i + 1;
        }
        proof {
            assert(orig.subrange(0, orig.len() as int) =~= orig);
        }
        self.frames = out;
    }

    /// Keeps only the frames bearing the given tag.
    pub fn filter_by_tag(&mut self, tag: &str)
        ensures
            final (self)@ == spec_filter_tag(old(self)@, tag@),
    {
        let ghost orig = self@;
        let mut out: Vec<Frame> = Vec::new();
        let mut i: usize = 0;
        while i < self.frames.len()
            invariant
                0 <= i <= self.frames@.len(),
                self@ == orig,
                orig.len() == self.frames@.len(),
                frame_views(out@) == spec_filter_tag(orig.subrange(0, i as int), tag@),
            decreases self.frames@.len() - i,
        {
            let ghost pre = orig.subrange(0, i as int);
            let ghost cur = orig.subrange(0, i as int + 1);
            proof {
                assert(cur.drop_last() =~= pre);
                assert(cur.last() == orig[i as int]);
                assert(orig[i as int] == self.frames@[i as int]@);
            }
            let f = &self.frames[i];
            if contains_string(&f.tags, tag) {
                let g = clone_frame(f);
                let ghost prev = out@;
                out.push(g);
                proof {
                    assert(frame_views(out@) =~= frame_views(prev).push(g@));
                }
            }
            i = i + 1;
        }
        proof {
            assert(orig.subrange(0, orig.len() as int) =~= orig);
        }
        self.frames = out;
    }
}

/// A frame list with each frame's project renamed from `o` to `n`.
pub open spec fn spec_rename_project(s: Seq<FrameV>, o: Seq<char>, n: Seq<char>) -> Seq<FrameV> {
    s.map_values(
        |f: FrameV|
            if f.project == o {
                FrameV { project: n, ..f }
            } else {
                f
            },
    )
}

/// A tag list with `o` replaced by `n`.
pub open spec fn spec_renamed_tags(tags: Seq<Seq<char>>, o: Seq<char>, n: Seq<char>) -> Seq<
    Seq<char>,
> {
    tags.map_values(
        |t: Seq<char>|
            if t == o {
                n
            } else {
                t
            },
    )
}

/// A tag list with every occurrence of `t` removed.
pub open spec fn spec_remove_tag(tags: Seq<Seq<char>>, t: Seq<char>) -> Seq<Seq<char>>
    decreases tags.len(),
{
    if tags.len() == 0 {
        Seq::empty()
    } else {
        let prefix = spec_remove_tag(tags.drop_last(), t);
        if tags.last() == t {
            prefix
        } else {
            prefix.push(tags.last())
        }
    }
}

impl Frames {
    /// The projects occurring in the recorded frames, each once, in
    /// lexicographic order.
    pub fn all_projects(&self) -> (r: Vec<String>)
        ensures
            sorted_unique(r.deep_view()),
            forall|p: Seq<char>|
                r.deep_view().contains(p) <==> exists|i: int|
                    0 <= i < self@.len() && (#[trigger] self@[i]).project == p,
    {
        let mut r: Vec<String> = Vec::new();
        let mut i: usize = 0;
        while i < self.frames.len()
            invariant
                0 <= i <= self.frames@.len(),
                sorted_unique(r.deep_view()),
                forall|p: Seq<char>|
                    r.deep_view().contains(p) <==> exists|k: int|
                        0 <= k < i && (#[trigger] self@[k]).project == p,
            decreases self.frames@.len() - i,
        {
            proof {
                assert(self@[i as int] == self.frames@[i as int]@);
            }
            let x = self.frames[i].project.clone();
            insert_unique_sorted(&mut r, x);
            i = i + 1;
        }
        r
    }

    /// The tags occurring in the recorded frames, each once, in
    /// lexicographic order.
    pub fn all_tags(&self) -> (r: Vec<String>)
        ensures
            sorted_unique(r.deep_view()),
            forall|t: Seq<char>|
                r.deep_view().contains(t) <==> exists|i: int|
                    0 <= i < self@.len() && (#[trigger] self@[i]).tags.contains(t),
    {
        let mut r: Vec<String> = Vec::new();
        let mut i: usize = 0;
        while i < self.frames.len()
            invariant
                0 <= i <= self.frames@.len(),
                sorted_unique(r.deep_view()),
                forall|t: Seq<char>|
                    r.deep_view().contains(t) <==> exists|k: int|
                        0 <= k < i && (#[trigger] self@[k]).tags.contains(t),
            decreases self.frames@.len() - i,
        {
            proof {
                assert(self@[i as int] == self.frames@[i as int]@);
            }
            let tags = &self.frames[i].tags;
            let mut j: usize = 0;
            while j < tags.len()
                invariant
                    0 <= j <= tags@.len(),
                    tags.deep_view() == self@[i as int].tags,
                    0 <= i < self@.len(),
                    sorted_unique(r.deep_view()),
                    forall|t: Seq<char>|
                        r.deep_view().contains(t) <==> (exists|k: int|
                            0 <= k < i && (#[trigger] self@[k]).tags.contains(t)) || exists|
                            l: int,
                        |
                            0 <= l < j && self@[i as int].tags[l] == t,
                decreases tags@.len() - j,
            {
                proof {
                    assert(tags.deep_view()[j as int] == tags@[j as int]@);
                }
                let x = tags[j].clone();
                insert_unique_sorted(&mut r, x);
                j = j + 1;
            }
            proof {
                assert forall|t: Seq<char>| r.deep_view().contains(t) implies (exists|k: int|
                    0 <= k <= i && (#[trigger] self@[k]).tags.contains(t)) by {
                    if exists|l: int| 0 <= l < tags@.len() && self@[i as int].tags[l] == t {
                        assert(self@[i as int].tags.contains(t));
                    }
                }
                assert forall|t: Seq<char>|
                    (exists|k: int| 0 <= k <= i && (#[trigger] self@[k]).tags.contains(t))
                    implies r.deep_view().contains(t) by {
                    let k = choose|k: int| 0 <= k <= i && (#[trigger] self@[k]).tags.contains(t);
                    if k == i {
                        let l = choose|l: int|
                            0 <= l < self@[i as int].tags.len() && self@[i as int].tags[l] == t;
                        assert(0 <= l < tags@.len() && self@[i as int].tags[l] == t);
                    }
                }
            }
            i = i + 1;
        }
        r
    }

    /// Renames every frame of project `old_name` to `new_name`.
    pub fn rename_project(&mut self, old_name: &str, new_name: &str)
        ensures
            final (self)@ == spec_rename_project(old(self)@, old_name@, new_name@),
    {
        let ghost orig = self@;
        let ghost target = spec_rename_project(orig, old_name@, new_name@);
        let mut out: Vec<Frame> = Vec::new();
        let mut i: usize = 0;
        while i < self.frames.len()
            invariant
                0 <= i <= self.frames@.len(),
                self@ == orig,
                orig.len() == self.frames@.len(),
                target == spec_rename_project(orig, old_name@, new_name@),
                frame_views(out@) =~= target.subrange(0, i as int),
            decreases self.frames@.len() - i,
        {
            proof {
                assert(orig[i as int] == self.frames@[i as int]@);
            }
            let f = &self.frames[i];
            let g = if str_eq(f.project.as_str(), old_name) {
                Frame {
                    start_time: f.start_time,
                    end_time: f.end_time,
                    project: new_name.to_owned(),
                    tags: clone_strings(&f.tags),
                    updated_at: f.updated_at,
                }
            } else {
                clone_frame(f)
            };
            proof {
                assert(g@ == target[i as int]);
            }
            let ghost prev = out@;
            out.push(g);
            proof {
                assert(frame_views(out@) =~= frame_views(prev).push(g@));
            }
            i = i + 1;
        }
        proof {
            assert(target.subrange(0, target.len() as int) =~= target);
        }
        self.frames = out;
    }

    /// Renames the tag `old_name` to `new_name` in every frame. A frame
    /// whose tags change has them re-sorted and deduplicated; other
    /// frames are untouched.
    pub fn rename_tag(&mut self, old_name: &str, new_name: &str)
        ensures
            final (self)@.len() == old(self)@.len(),
            forall|i: int|
                0 <= i < old(self)@.len() && !(#[trigger] old(self)@[i]).tags.contains(old_name@)
                    ==> final (self)@[i] == old(self)@[i],
            forall|i: int|
                0 <= i < old(self)@.len() && (#[trigger] old(self)@[i]).tags.contains(old_name@)
                    ==> {
                    &&& final (self)@[i].start_time == old(self)@[i].start_time
                    &&& final (self)@[i].end_time == old(self)@[i].end_time
                    &&& final (self)@[i].project == old(self)@[i].project
                    &&& final (self)@[i].updated_at == old(self)@[i].updated_at
                    &&& sorted_unique(final (self)@[i].tags)
                    &&& forall|t: Seq<char>|
                        final (self)@[i].tags.contains(t) <==> spec_renamed_tags(
                            old(self)@[i].tags,
                            old_name@,
                            new_name@,
                        ).contains(t)
                },
    {
        let ghost orig = self@;
        let mut out: Vec<Frame> = Vec::new();
        let mut i: usize = 0;
        while i < self.frames.len()
            invariant
                0 <= i <= self.frames@.len(),
                self@ == orig,
                orig.len() == self.frames@.len(),
                frame_views(out@).len() == i,
                forall|k: int|
                    0 <= k < i && !(#[trigger] orig[k]).tags.contains(old_name@) ==> frame_views(
                        out@,
                    )[k] == orig[k],
                forall|k: int|
                    0 <= k < i && (#[trigger] orig[k]).tags.contains(old_name@) ==> {
                        &&& frame_views(out@)[k].start_time == orig[k].start_time
                        &&& frame_views(out@)[k].end_time == orig[k].end_time
                        &&& frame_views(out@)[k].project == orig[k].project
                        &&& frame_views(out@)[k].updated_at == orig[k].updated_at
                        &&& sorted_unique(frame_views(out@)[k].tags)
                        &&& forall|t: Seq<char>|
                            frame_views(out@)[k].tags.contains(t) <==> spec_renamed_tags(
                                orig[k].tags,
                                old_name@,
                                new_name@,
                            ).contains(t)
                    },
            decreases self.frames@.len() - i,
        {
            proof {
                assert(orig[i as int] == self.frames@[i as int]@);
            }
            let f = &self.frames[i];
            let g = if contains_string(&f.tags, old_name) {
                let ghost renamed = spec_renamed_tags(orig[i as int].tags, old_name@, new_name@);
                let mut nt: Vec<String> = Vec::new();
                let mut j: usize = 0;
                while j < f.tags.len()
                    invariant
                        0 <= j <= f.tags@.len(),
                        f.tags.deep_view() == orig[i as int].tags,
                        0 <= i < orig.len(),
                        renamed == spec_renamed_tags(orig[i as int].tags, old_name@, new_name@),
                        sorted_unique(nt.deep_view()),
                        forall|t: Seq<char>|
                            nt.deep_view().contains(t) <==> renamed.subrange(
                                0,
                                j as int,
                            ).contains(t),
                    decreases f.tags@.len() - j,
                {
                    proof {
                        assert(f.tags.deep_view()[j as int] == f.tags@[j as int]@);
                    }
                    let x = if str_eq(f.tags[j].as_str(), old_name) {
                        new_name.to_owned()
                    } else {
                        f.tags[j].clone()
                    };
                    proof {
                        assert(x@ == renamed[j as int]);
                    }
                    let ghost prevnt = nt.deep_view();
                    insert_unique_sorted(&mut nt, x);
                    proof {
                        assert forall|t: Seq<char>| nt.deep_view().contains(t) <==> renamed
                            .subrange(0, j as int + 1).contains(t) by {
                            if nt.deep_view().contains(t) {
                                if prevnt.contains(t) {
                                    let l = choose|l: int|
                                        0 <= l < j && #[trigger] renamed.subrange(
                                            0,
                                            j as int,
                                        )[l] == t;
                                    assert(renamed.subrange(0, j as int + 1)[l] == t);
                                } else {
                                    assert(renamed.subrange(0, j as int + 1)[j as int] == t);
                                }
                            }
                            if renamed.subrange(0, j as int + 1).contains(t) {
                                let l = choose|l: int|
                                    0 <= l < j + 1 && #[trigger] renamed.subrange(
                                        0,
                                        j as int + 1,
                                    )[l] == t;
                                if l < j {
                                    assert(renamed.subrange(0, j as int)[l] == t);
                                }
                            }
                        }
                    }
                    j = j + 1;
                }
                proof {
                    assert(renamed.subrange(0, renamed.len() as int) =~= renamed);
                }
                Frame {
                    start_time: f.start_time,
                    end_time: f.end_time,
                    project: f.project.clone(),
                    tags: nt,
                    updated_at: f.updated_at,
                }
            } else {
                clone_frame(f)
            };
            let ghost prev = out@;
            out.push(g);
            proof {
                assert(frame_views(out@) =~= frame_views(prev).push(g@));
            }
            i = i + 1;
        }
        self.frames = out;
    }

    /// Removes the tag `tag_to_remove` from every frame.
    pub fn remove_tag(&mut self, tag_to_remove: &str)
        ensures
            final (self)@.len() == old(self)@.len(),
            forall|i: int|
                0 <= i < old(self)@.len() ==> {
                    &&& (#[trigger] final (self)@[i]).start_time == old(self)@[i].start_time
                    &&& final (self)@[i].end_time == old(self)@[i].end_time
                    &&& final (self)@[i].project == old(self)@[i].project
                    &&& final (self)@[i].updated_at == old(self)@[i].updated_at
                    &&& final (self)@[i].tags == spec_remove_tag(old(self)@[i].tags, tag_to_remove@)
                },
    {
        let ghost orig = self@;
        let mut out: Vec<Frame> = Vec::new();
        let mut i: usize = 0;
        while i < self.frames.len()
            invariant
                0 <= i <= self.frames@.len(),
                self@ == orig,
                orig.len() == self.frames@.len(),
                frame_views(out@).len() == i,
                forall|k: int|
                    0 <= k < i ==> {
                        &&& (#[trigger] frame_views(out@)[k]).start_time == orig[k].start_time
                        &&& frame_views(out@)[k].end_time == orig[k].end_time
                        &&& frame_views(out@)[k].project == orig[k].project
                        &&& frame_views(out@)[k].updated_at == orig[k].updated_at
                        &&& frame_views(out@)[k].tags == spec_remove_tag(orig[k].tags, tag_to_remove@)
                    },
            decreases self.frames@.len() - i,
        {
            proof {
                assert(orig[i as int] == self.frames@[i as int]@);
            }
            let f = &self.frames[i];
            let mut nt: Vec<String> = Vec::new();
            let mut j: usize = 0;
            while j < f.tags.len()
                invariant
                    0 <= j <= f.tags@.len(),
                    f.tags.deep_view() == orig[i as int].tags,
                    0 <= i < orig.len(),
                    nt.deep_view() == spec_remove_tag(
                        orig[i as int].tags.subrange(0, j as int),
                        tag_to_remove@,
                    ),
                decreases f.tags@.len() - j,
            {
                let ghost pre = orig[i as int].tags.subrange(0, j as int);
                let ghost cur = orig[i as int].tags.subrange(0, j as int + 1);
                proof {
                    assert(cur.drop_last() =~= pre);
                    assert(cur.last() == orig[i as int].tags[j as int]);
                    assert(f.tags.deep_view()[j as int] == f.tags@[j as int]@);
                }
                if !str_eq(f.tags[j].as_str(), tag_to_remove) {
                    let ghost prevnt = nt.deep_view();
                    nt.push(f.tags[j].clone());
                    proof {
                        assert(nt.deep_view() =~= prevnt.push(orig[i as int].tags[j as int]));
                    }
                }
                j = j + 1;
            }
            proof {
                assert(orig[i as int].tags.subrange(0, orig[i as int].tags.len() as int) =~= orig[
                    i as int
                ].tags);
            }
            let g = Frame {
                start_time: f.start_time,
                end_time: f.end_time,
                project: f.project.clone(),
                tags: nt,
                updated_at: f.updated_at,
            };
            let ghost prev = out@;
            out.push(g);
            proof {
                assert(frame_views(out@) =~= frame_views(prev).push(g@));
            }
            i = i + 1;
        }
        self.frames = out;
    }
}

/// Clips and filters `frames` to the period and the optional project and
/// tag filters. A period with `from > to` is empty: every frame is
/// dropped and none is inspected.
pub fn filter_frames(
    frames: &mut Frames,
    timespan: &Timespan,
    project: Option<&str>,
    tag: Option<&str>,
)
    ensures
        final (frames)@ == spec_filter_frames(
            old(frames)@,
            timespan.from as int,
            timespan.to as int,
            opt_str_view(project),
            opt_str_view(tag),
        ),
        timespan.from > timespan.to ==> final (frames)@ == Seq::<FrameV>::empty(),
{
    if timespan.from > timespan.to {
        frames.frames = Vec::new();
        proof {
            assert(frames@ =~= Seq::<FrameV>::empty());
        }
        return ;
    }
    frames.filter_by_start_time(timespan.from);
    frames.filter_by_end_time(timespan.to);
    if let Some(p) = project {
        frames.filter_by_project(p);
    }
    if let Some(t) = tag {
        frames.filter_by_tag(t);
    }
}

} // verus!
