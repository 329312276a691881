use ebb::period::PeriodArgs;
use ebb::report::{report_summary, total_duration_by_project, ProjectDuration};
use ebb::types::{Frame, Frames, State};

fn frame(start: i64, end: i64, project: &str, tags: &[&str]) -> Frame {
    Frame {
        start_time: start,
        end_time: end,
        project: project.to_string(),
        tags: tags.iter().map(|t| t.to_string()).collect(),
        updated_at: end,
    }
}

fn lookup<'a>(projects: &'a [(String, ProjectDuration)], name: &str) -> &'a ProjectDuration {
    &projects.iter().find(|(p, _)| p == name).expect("project missing").1
}

fn tag_of(pd: &ProjectDuration, name: &str) -> i64 {
    pd.tags.iter().find(|(t, _)| t == name).expect("tag missing").1
}

#[test]
fn aggregates_projects_and_tags() {
    // Three frames: (A, [x, y], 1h), (B, [z], 2h), (A, [y], 3h).
    let frames = Frames {
        frames: vec![
            frame(0, 3600, "A", &["x", "y"]),
            frame(3600, 3600 + 7200, "B", &["z"]),
            frame(20000, 20000 + 10800, "A", &["y"]),
        ],
    };
    let (projects, total) = total_duration_by_project(&frames);
    assert_eq!(total, 6 * 3600);
    assert_eq!(projects.len(), 2);
    let a = lookup(&projects, "A");
    assert_eq!(a.duration, 4 * 3600);
    assert_eq!(tag_of(a, "x"), 3600);
    assert_eq!(tag_of(a, "y"), 4 * 3600);
    assert_eq!(a.tags.len(), 2);
    let b = lookup(&projects, "B");
    assert_eq!(b.duration, 2 * 3600);
    assert_eq!(tag_of(b, "z"), 2 * 3600);
    assert_eq!(b.tags.len(), 1);
}

#[test]
fn aggregating_no_frames_yields_zero() {
    let frames = Frames { frames: Vec::new() };
    let (projects, total) = total_duration_by_project(&frames);
    assert_eq!(total, 0);
    assert!(projects.is_empty());
}

#[test]
fn report_clips_frames_and_counts_current_frame() {
    let frames = Frames { frames: vec![frame(0, 1000, "A", &[])] };
    let state = State {
        current_frame: Some(ebb::types::CurrentFrame {
            start_time: 1500,
            project: "B".to_string(),
            tags: Vec::new(),
        }),
    };
    let args = PeriodArgs {
        from: Some(500),
        to: Some(2000),
        day: false,
        week: false,
        month: false,
        year: false,
    };
    let out = report_summary(frames, &state, &args, None, None, 1800, 0);
    assert_eq!(out.timespan.from, 500);
    assert_eq!(out.timespan.to, 2000);
    // A is clipped to [500, 1000]; B runs from 1500 to now = 1800.
    assert_eq!(out.total_duration, 500 + 300);
    let a = lookup(&out.projects, "A");
    assert_eq!(a.duration, 500);
    let b = lookup(&out.projects, "B");
    assert_eq!(b.duration, 300);
}

#[test]
fn report_applies_project_and_tag_filters() {
    let frames = Frames {
        frames: vec![
            frame(0, 100, "A", &["x"]),
            frame(100, 300, "A", &["y"]),
            frame(300, 700, "B", &["x"]),
        ],
    };
    let state = State { current_frame: None };
    let args = PeriodArgs {
        from: Some(0),
        to: Some(1000),
        day: false,
        week: false,
        month: false,
        year: false,
    };
    let out = report_summary(frames, &state, &args, Some("A"), Some("x"), 1000, 0);
    assert_eq!(out.total_duration, 100);
    assert_eq!(out.projects.len(), 1);
    let a = lookup(&out.projects, "A");
    assert_eq!(a.duration, 100);
}
