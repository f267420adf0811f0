use audionorm::progress::{
    parse_progress, parse_progress_line, ProgressEvent, ProgressTracker, ProgressUpdate,
};

#[test]
fn elapsed_and_end_lines() {
    assert_eq!(
        parse_progress_line("out_time_ms=1500000"),
        Some(ProgressEvent::Elapsed(1_500_000))
    );
    assert_eq!(
        parse_progress_line("  out_time_ms = 42abc"),
        Some(ProgressEvent::Elapsed(42))
    );
    assert_eq!(parse_progress_line("progress=end"), Some(ProgressEvent::End));
    assert_eq!(
        parse_progress_line("\u{a0}out_time_ms\u{202f}=\u{a0}7"),
        Some(ProgressEvent::Elapsed(7))
    );
    assert_eq!(parse_progress_line("progress=continue"), None);
    assert_eq!(parse_progress_line("out_time_ms="), None);
    assert_eq!(parse_progress_line("out_time=00:00:01.500000"), None);
    assert_eq!(parse_progress_line("out_time_ms=99999999999999999999"), None);
}

#[test]
fn known_duration_moves_the_bar_then_finishes_once() {
    let mut t = ProgressTracker::new(Some(2_000_000));
    assert_eq!(t.len(), 2_000_000);
    let pos = t.step("out_time_ms=1500000");
    assert_eq!(pos, Some(ProgressUpdate::Position(1_500_000)));
    if let Some(ProgressUpdate::Position(p)) = pos {
        assert_eq!(p as f64 / 1_000_000.0, 1.5);
    }
    assert_eq!(t.step("speed=1.0x"), None);
    assert_eq!(t.step("progress=end"), Some(ProgressUpdate::Finish));
    assert_eq!(t.step("out_time_ms=1900000"), None);
    assert_eq!(t.step("progress=end"), None);
    assert!(t.finished);
}

#[test]
fn whole_run_finishes_once() {
    let lines: Vec<String> = [
        "frame=1",
        "out_time_ms=500000",
        "progress=continue",
        "out_time_ms=2000000",
        "progress=end",
        "out_time_ms=2100000",
        "progress=end",
    ]
    .iter()
    .map(|s| s.to_string())
    .collect();
    let mut t = ProgressTracker::new(Some(2_000_000));
    let updates = t.step_all(&lines);
    assert_eq!(
        updates,
        vec![
            None,
            Some(ProgressUpdate::Position(500_000)),
            None,
            Some(ProgressUpdate::Position(2_000_000)),
            Some(ProgressUpdate::Finish),
            None,
            None,
        ]
    );
    assert!(t.finished);
}

#[test]
fn unknown_duration_spins() {
    let mut t = ProgressTracker::new(None);
    assert_eq!(t.len(), 10_000_000);
    assert_eq!(
        t.step("out_time_ms=1234567"),
        Some(ProgressUpdate::Position(7))
    );
}

#[test]
fn clock_progress_lines() {
    assert_eq!(parse_progress("out_time=01:02:03.250000"), Some(3723));
    assert_eq!(parse_progress(" out_time = 00:00:10"), Some(10));
    assert_eq!(parse_progress("\u{a0}out_time=01:02:03"), Some(3723));
    assert_eq!(parse_progress("out_time\u{2003}=\u{85}00:01:00"), Some(60));
    assert_eq!(parse_progress("out_time=1:02:03"), None);
    assert_eq!(parse_progress("out_time_ms=100"), None);
}
