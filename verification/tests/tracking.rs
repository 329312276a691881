use ebb::tracking::{
    build_current_frame, clean_tags, close_frame, compute_end_time, compute_start_time,
    restart_source, with_current_frame, TrackingError,
};
use ebb::types::{CurrentFrame, Frame, Frames, State};

fn strings(items: &[&str]) -> Vec<String> {
    items.iter().map(|s| s.to_string()).collect()
}

#[test]
fn start_time_defaults_to_now() {
    assert_eq!(compute_start_time(None, false, None, 1000), Ok(1000));
    assert_eq!(compute_start_time(None, false, Some(500), 1000), Ok(1000));
}

#[test]
fn start_time_with_no_gap_continues_from_last_frame() {
    assert_eq!(compute_start_time(None, true, Some(500), 1000), Ok(500));
    assert_eq!(compute_start_time(None, true, None, 1000), Ok(1000));
}

#[test]
fn explicit_start_time_must_not_precede_last_frame_end() {
    assert_eq!(compute_start_time(Some(400), false, Some(500), 1000),
        Err(TrackingError::StartBeforeLastFrameEnd));
    assert_eq!(compute_start_time(Some(600), false, Some(500), 1000), Ok(600));
    assert_eq!(compute_start_time(Some(400), false, None, 1000), Ok(400));
}

#[test]
fn explicit_end_time_must_follow_the_start() {
    assert_eq!(compute_end_time(Some(500), 500, 1000), Err(TrackingError::EndBeforeStartTime));
    assert_eq!(compute_end_time(Some(400), 500, 1000), Err(TrackingError::EndBeforeStartTime));
    assert_eq!(compute_end_time(Some(501), 500, 1000), Ok(501));
    assert_eq!(compute_end_time(None, 500, 1000), Ok(1000));
}

#[test]
fn clean_tags_keeps_only_marked_arguments() {
    let cleaned = clean_tags(&strings(&["+work", "stray", "+billing", "+", ""]));
    assert_eq!(cleaned, strings(&["work", "billing", ""]));
}

#[test]
fn build_current_frame_cleans_its_tags() {
    let cf = build_current_frame("proj", &strings(&["+a", "b"]), 42);
    assert_eq!(cf.project, "proj");
    assert_eq!(cf.tags, strings(&["a"]));
    assert_eq!(cf.start_time, 42);
}

#[test]
fn close_frame_stamps_end_and_update_times() {
    let cf = CurrentFrame { start_time: 100, project: "p".to_string(), tags: strings(&["t"]) };
    let f = close_frame(&cf, 250);
    assert_eq!(f.start_time, 100);
    assert_eq!(f.end_time, 250);
    assert_eq!(f.updated_at, 250);
    assert_eq!(f.project, "p");
    assert_eq!(f.tags, strings(&["t"]));
}

#[test]
fn with_current_frame_appends_only_when_tracking() {
    let mut frames = Frames { frames: Vec::new() };
    let idle = State { current_frame: None };
    with_current_frame(&mut frames, &idle, 500);
    assert!(frames.frames.is_empty());

    let active = State {
        current_frame: Some(CurrentFrame {
            start_time: 100,
            project: "p".to_string(),
            tags: Vec::new(),
        }),
    };
    with_current_frame(&mut frames, &active, 500);
    assert_eq!(frames.frames.len(), 1);
    assert_eq!(frames.frames[0].start_time, 100);
    assert_eq!(frames.frames[0].end_time, 500);
}

#[test]
fn restart_refuses_while_tracking() {
    let state = State {
        current_frame: Some(CurrentFrame {
            start_time: 1,
            project: "p".to_string(),
            tags: Vec::new(),
        }),
    };
    let frames = Frames { frames: Vec::new() };
    assert_eq!(restart_source(&state, &frames), Err(TrackingError::AlreadyInProgress));
}

#[test]
fn restart_needs_a_previous_frame() {
    let state = State { current_frame: None };
    let frames = Frames { frames: Vec::new() };
    assert_eq!(restart_source(&state, &frames), Err(TrackingError::NoPreviousFrame));
}

#[test]
fn restart_takes_the_last_frame() {
    let state = State { current_frame: None };
    let frames = Frames {
        frames: vec![
            Frame {
                start_time: 0,
                end_time: 10,
                project: "old".to_string(),
                tags: Vec::new(),
                updated_at: 10,
            },
            Frame {
                start_time: 20,
                end_time: 30,
                project: "recent".to_string(),
                tags: strings(&["t"]),
                updated_at: 30,
            },
        ],
    };
    let (project, tags) = restart_source(&state, &frames).unwrap();
    assert_eq!(project, "recent");
    assert_eq!(tags, strings(&["t"]));
}
