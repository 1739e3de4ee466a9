use ascii_canvas::frame::FrameScheduler;

const MS: u64 = 1_000_000;

#[test]
fn minimum_frame_duration_is_truncated() {
    let s = FrameScheduler::new(60, 0);
    assert_eq!(s.min_frame_ms, 16);
    assert_eq!(s.last_frame_start, 0);
    assert_eq!(s.last_render, 0);
    assert_eq!(FrameScheduler::new(1, 5).min_frame_ms, 1000);
    assert_eq!(FrameScheduler::new(2000, 5).min_frame_ms, 0);
}

#[test]
fn frame_is_due_once_idle_exceeds_minimum() {
    let s = FrameScheduler::new(60, 100 * MS);
    assert!(!s.is_due(100 * MS));
    assert!(!s.is_due(116 * MS));
    assert!(!s.is_due(117 * MS - 1));
    assert!(s.is_due(117 * MS));
    assert!(!s.is_due(50 * MS));
}

#[test]
fn render_time_is_subtracted_from_idle_time() {
    let mut s = FrameScheduler::new(60, 0);
    s.record_frame(20 * MS, 20 * MS + 10, 25 * MS + 10);
    assert_eq!(s.last_frame_start, 20 * MS);
    assert_eq!(s.last_render, 5 * MS);
    assert_eq!(s.idle_time(30 * MS), 5 * MS);
    assert_eq!(s.idle_time(21 * MS), 0);
    assert!(!s.is_due(41 * MS));
    assert!(!s.is_due(42 * MS - 1));
    assert!(s.is_due(42 * MS));
}

#[test]
fn render_end_before_start_counts_as_zero() {
    let mut s = FrameScheduler::new(60, 0);
    s.record_frame(10, 50, 40);
    assert_eq!(s.last_render, 0);
}

#[test]
fn frames_do_not_drift_with_varying_render_time() {
    // poll every millisecond; render times vary
    let renders = [3 * MS, 9 * MS, 1 * MS, 12 * MS, 0, 7 * MS];
    let mut s = FrameScheduler::new(60, 0);
    let mut now = 0u64;
    let mut starts = vec![0u64];
    let mut total_render = 0u64;
    for r in renders {
        s.record_frame(*starts.last().unwrap(), *starts.last().unwrap(), *starts.last().unwrap() + r);
        total_render += r;
        now = *starts.last().unwrap();
        while !s.is_due(now) {
            now += MS;
        }
        starts.push(now);
    }
    let n = renders.len() as u64;
    let elapsed = starts.last().unwrap() - starts[0] - total_render;
    assert!(elapsed >= n * 17 * MS);
    assert!(elapsed <= n * 18 * MS);
    for k in 0..renders.len() {
        let period = starts[k + 1] - starts[k];
        assert_eq!(period, renders[k] + 17 * MS);
    }
    assert!(now > 0);
}
