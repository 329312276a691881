use ebb::frames::filter_frames;
use ebb::types::{Frame, Frames, Timespan};

fn frame(start: i64, end: i64, project: &str, tags: &[&str]) -> Frame {
    Frame {
        start_time: start,
        end_time: end,
        project: project.to_string(),
        tags: tags.iter().map(|t| t.to_string()).collect(),
        updated_at: end,
    }
}

fn starts_ends(frames: &Frames) -> Vec<(i64, i64)> {
    frames.frames.iter().map(|f| (f.start_time, f.end_time)).collect()
}

#[test]
fn start_filter_clips_and_drops() {
    let mut frames = Frames {
        frames: vec![
            frame(0, 50, "a", &[]),
            frame(0, 150, "a", &[]),
            frame(100, 200, "a", &[]),
            frame(150, 250, "a", &[]),
        ],
    };
    frames.filter_by_start_time(100);
    assert_eq!(starts_ends(&frames), vec![(100, 150), (100, 200), (150, 250)]);
}

#[test]
fn end_filter_clips_and_drops() {
    let mut frames = Frames {
        frames: vec![
            frame(0, 50, "a", &[]),
            frame(0, 150, "a", &[]),
            frame(100, 200, "a", &[]),
            frame(150, 250, "a", &[]),
        ],
    };
    frames.filter_by_end_time(100);
    assert_eq!(starts_ends(&frames), vec![(0, 50), (0, 100)]);
}

#[test]
fn frame_spanning_whole_period_is_clipped_on_both_ends() {
    let mut frames = Frames { frames: vec![frame(0, 1000, "a", &[])] };
    filter_frames(&mut frames, &Timespan { from: 100, to: 200 }, None, None);
    assert_eq!(starts_ends(&frames), vec![(100, 200)]);
}

#[test]
fn frame_fully_inside_period_is_unchanged() {
    let mut frames = Frames { frames: vec![frame(120, 180, "a", &[])] };
    filter_frames(&mut frames, &Timespan { from: 100, to: 200 }, None, None);
    assert_eq!(starts_ends(&frames), vec![(120, 180)]);
}

#[test]
fn frame_fully_outside_period_is_dropped() {
    let mut frames = Frames {
        frames: vec![frame(0, 50, "a", &[]), frame(300, 400, "a", &[])],
    };
    filter_frames(&mut frames, &Timespan { from: 100, to: 200 }, None, None);
    assert_eq!(starts_ends(&frames), vec![]);
}

#[test]
fn inverted_period_drops_everything() {
    let mut frames = Frames { frames: vec![frame(0, 1000, "a", &[])] };
    filter_frames(&mut frames, &Timespan { from: 200, to: 100 }, None, None);
    assert_eq!(frames.frames.len(), 0);
}

#[test]
fn filtering_twice_with_the_same_period_is_identity() {
    let mut frames = Frames {
        frames: vec![
            frame(0, 150, "a", &["x"]),
            frame(120, 180, "b", &[]),
            frame(150, 250, "a", &[]),
            frame(300, 400, "c", &[]),
        ],
    };
    let period = Timespan { from: 100, to: 200 };
    filter_frames(&mut frames, &period, None, None);
    let once = starts_ends(&frames);
    filter_frames(&mut frames, &period, None, None);
    assert_eq!(starts_ends(&frames), once);
}

#[test]
fn project_filter_keeps_exact_matches() {
    let mut frames = Frames {
        frames: vec![
            frame(0, 10, "alpha", &[]),
            frame(10, 20, "beta", &[]),
            frame(20, 30, "alpha", &[]),
        ],
    };
    frames.filter_by_project("alpha");
    assert_eq!(starts_ends(&frames), vec![(0, 10), (20, 30)]);
}

#[test]
fn tag_filter_keeps_frames_bearing_the_tag() {
    let mut frames = Frames {
        frames: vec![
            frame(0, 10, "a", &["x", "y"]),
            frame(10, 20, "a", &["z"]),
            frame(20, 30, "b", &["y"]),
        ],
    };
    frames.filter_by_tag("y");
    assert_eq!(starts_ends(&frames), vec![(0, 10), (20, 30)]);
}

#[test]
fn all_projects_is_sorted_and_deduplicated() {
    let frames = Frames {
        frames: vec![
            frame(0, 10, "zeta", &[]),
            frame(10, 20, "alpha", &[]),
            frame(20, 30, "zeta", &[]),
            frame(30, 40, "beta", &[]),
        ],
    };
    let projects = frames.all_projects();
    assert_eq!(projects, vec!["alpha".to_string(), "beta".to_string(), "zeta".to_string()]);
}

#[test]
fn all_tags_is_sorted_and_deduplicated() {
    let frames = Frames {
        frames: vec![
            frame(0, 10, "a", &["work", "admin"]),
            frame(10, 20, "b", &["work"]),
            frame(20, 30, "c", &["billing"]),
        ],
    };
    let tags = frames.all_tags();
    assert_eq!(tags, vec!["admin".to_string(), "billing".to_string(), "work".to_string()]);
}

#[test]
fn rename_project_renames_every_match() {
    let mut frames = Frames {
        frames: vec![
            frame(0, 10, "old", &[]),
            frame(10, 20, "other", &[]),
            frame(20, 30, "old", &[]),
        ],
    };
    frames.rename_project("old", "new");
    let projects: Vec<String> = frames.frames.iter().map(|f| f.project.clone()).collect();
    assert_eq!(projects, vec!["new".to_string(), "other".to_string(), "new".to_string()]);
}

#[test]
fn rename_tag_sorts_and_deduplicates_changed_frames() {
    let mut frames = Frames {
        frames: vec![frame(0, 10, "a", &["x", "b", "y"]), frame(10, 20, "a", &["z", "q"])],
    };
    frames.rename_tag("x", "y");
    assert_eq!(frames.frames[0].tags, vec!["b".to_string(), "y".to_string()]);
    // A frame without the old tag keeps its order untouched.
    assert_eq!(frames.frames[1].tags, vec!["z".to_string(), "q".to_string()]);
}

#[test]
fn remove_tag_removes_it_everywhere() {
    let mut frames = Frames {
        frames: vec![frame(0, 10, "a", &["x", "y"]), frame(10, 20, "b", &["y", "z"])],
    };
    frames.remove_tag("y");
    assert_eq!(frames.frames[0].tags, vec!["x".to_string()]);
    assert_eq!(frames.frames[1].tags, vec!["z".to_string()]);
}
