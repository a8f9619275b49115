use gamebench::monitor::{
    get_fps_status, start_fps_monitor, stop_fps_monitor, IngestLoop, LoopAction, MonitorEvent,
    MonitorState,
};

const HEADER: &str = "Application,ProcessID,SwapChainAddress,Runtime,FrameTime,CPUBusy,GPUBusy";

fn frame(ms: &str) -> String {
    format!("A.exe,1,0x0,DXGI,{},1.234,5.678", ms)
}

fn running_session(name: &str) -> (MonitorState, IngestLoop) {
    let mut state = MonitorState::new();
    start_fps_monitor(&mut state, &name.to_string()).unwrap();
    let ev = state.begin_session();
    assert!(matches!(ev, MonitorEvent::Started(ref n) if n == name));
    (state, IngestLoop::new(name.to_string()))
}

#[test]
fn start_while_active_is_refused() {
    let (mut state, mut lp) = running_session("A");
    lp.feed_line(&mut state, HEADER, 0);
    lp.feed_line(&mut state, &frame("10"), 10);
    let before = state.all_frame_times.clone();
    let r = start_fps_monitor(&mut state, &"B".to_string());
    let msg = r.unwrap_err();
    assert!(msg.contains("A"));
    assert_eq!(msg, "already monitoring A");
    assert_eq!(state.all_frame_times, before);
    assert!(state.running);
    assert_eq!(state.process_name, "A");
}

#[test]
fn start_when_idle_is_accepted() {
    let mut state = MonitorState::new();
    assert!(start_fps_monitor(&mut state, &"A".to_string()).is_ok());
    assert!(state.running);
    assert_eq!(state.process_name, "A");
}

#[test]
fn second_start_while_starting_is_refused() {
    let mut state = MonitorState::new();
    start_fps_monitor(&mut state, &"A".to_string()).unwrap();
    let msg = start_fps_monitor(&mut state, &"B".to_string()).unwrap_err();
    assert_eq!(msg, "already monitoring A");
}

#[test]
fn failed_launch_keeps_the_previous_history() {
    let (mut state, mut lp) = running_session("A");
    lp.feed_line(&mut state, HEADER, 0);
    lp.feed_line(&mut state, &frame("20"), 0);
    lp.finish(&mut state, 5);
    let before = get_fps_status(&state).unwrap().current_fps_tenths;
    assert_eq!(before, Some(500));
    start_fps_monitor(&mut state, &"B".to_string()).unwrap();
    assert_eq!(state.all_frame_times.len(), 1);
    state.abort_start("not found".to_string());
    assert!(!state.running);
    assert_eq!(state.all_frame_times.len(), 1);
    assert_eq!(get_fps_status(&state).unwrap().current_fps_tenths, before);
}

#[test]
fn failed_launch_releases_the_session() {
    let mut state = MonitorState::new();
    start_fps_monitor(&mut state, &"A".to_string()).unwrap();
    let ev = state.abort_start("not found".to_string());
    assert!(matches!(ev, MonitorEvent::Error(ref m) if m == "not found"));
    assert!(!state.running);
    assert!(start_fps_monitor(&mut state, &"B".to_string()).is_ok());
}

#[test]
fn stop_when_idle_succeeds_quietly() {
    let mut state = MonitorState::new();
    assert!(stop_fps_monitor(&mut state).is_ok());
    assert!(!state.running);
    assert!(state.all_frame_times.is_empty());
}

#[test]
fn stop_is_observed_before_the_next_line() {
    let (mut state, mut lp) = running_session("A");
    lp.feed_line(&mut state, HEADER, 0);
    stop_fps_monitor(&mut state).unwrap();
    assert!(matches!(lp.feed_line(&mut state, &frame("10"), 5), LoopAction::Stop));
    assert!(state.all_frame_times.is_empty());
}

#[test]
fn session_without_valid_samples_only_stops() {
    let (mut state, mut lp) = running_session("A");
    lp.feed_line(&mut state, HEADER, 0);
    lp.feed_line(&mut state, &frame("0"), 1);
    lp.feed_line(&mut state, &frame("1000"), 2);
    lp.feed_line(&mut state, "garbage", 3);
    let events = lp.finish(&mut state, 4);
    assert_eq!(events.len(), 1);
    assert!(matches!(events[0], MonitorEvent::Stopped(ref n) if n == "A"));
    assert!(!state.running);
}

#[test]
fn first_line_is_header_and_blank_lines_skip() {
    let (mut state, mut lp) = running_session("A");
    assert!(matches!(lp.feed_line(&mut state, "   ", 0), LoopAction::Continue));
    assert!(lp.header.is_empty());
    // a single-field first line is still taken as the header
    assert!(matches!(lp.feed_line(&mut state, "justone", 0), LoopAction::Continue));
    assert_eq!(lp.header, vec!["justone".to_string()]);
    assert!(matches!(lp.feed_line(&mut state, "x", 0), LoopAction::Continue));
    assert!(matches!(lp.feed_line(&mut state, &frame("10"), 0), LoopAction::Continue));
    assert!(state.all_frame_times.is_empty());
}

#[test]
fn window_flushes_after_one_second() {
    let (mut state, mut lp) = running_session("A");
    lp.feed_line(&mut state, HEADER, 0);
    for (i, ms) in ["10", "10", "10", "10"].iter().enumerate() {
        let a = lp.feed_line(&mut state, &frame(ms), 100 * i as u64);
        assert!(matches!(a, LoopAction::Continue));
    }
    let a = lp.feed_line(&mut state, &frame("20"), 1_049);
    match a {
        LoopAction::Emit(MonitorEvent::Update(s)) => {
            assert_eq!(s.fps_tenths, 833);
            assert_eq!(s.fps_1_low_tenths, 500);
            assert_eq!(s.fps_01_low_tenths, 500);
            assert_eq!(s.frametime_hundredths_ms, 1200);
            assert_eq!(s.cpu_busy_hundredths_ms, 123);
            assert_eq!(s.gpu_busy_hundredths_ms, 568);
            assert_eq!(s.process_name, "A");
            assert_eq!(s.elapsed_tenths_secs, 10);
        }
        _ => panic!("expected a snapshot"),
    }
    assert!(lp.window.is_empty());
    assert_eq!(lp.window_start_ms, 1_049);
    assert_eq!(state.all_frame_times.len(), 5);
    assert!(matches!(lp.feed_line(&mut state, &frame("10"), 2_000), LoopAction::Continue));
}

#[test]
fn session_summary_at_stream_end() {
    let (mut state, mut lp) = running_session("A");
    lp.feed_line(&mut state, HEADER, 0);
    lp.feed_line(&mut state, &frame("10"), 1);
    lp.feed_line(&mut state, &frame("20"), 2);
    let events = lp.finish(&mut state, 12_345);
    assert_eq!(events.len(), 2);
    match &events[0] {
        MonitorEvent::SessionComplete(s) => {
            assert_eq!(s.process_name, "A");
            assert_eq!(s.avg_fps_tenths, 667);
            assert_eq!(s.max_fps_tenths, 1000);
            assert_eq!(s.min_fps_tenths, 500);
            assert_eq!(s.fps_1_low_tenths, 500);
            assert_eq!(s.fps_01_low_tenths, 500);
            assert_eq!(s.total_frames, 2);
            assert_eq!(s.duration_tenths_secs, 123);
        }
        _ => panic!("expected a summary"),
    }
    assert!(matches!(events[1], MonitorEvent::Stopped(ref n) if n == "A"));
}

#[test]
fn status_is_stable_without_new_samples() {
    let (mut state, mut lp) = running_session("A");
    lp.feed_line(&mut state, HEADER, 0);
    for _ in 0..100 {
        lp.feed_line(&mut state, &frame("20"), 0);
    }
    lp.feed_line(&mut state, &frame("10"), 0);
    let a = get_fps_status(&state).unwrap();
    let b = get_fps_status(&state).unwrap();
    assert!(a.running);
    assert_eq!(a.process_name.as_deref(), Some("A"));
    // latest 60 frames: 59 of 20 ms and one of 10 ms -> mean 19.8333 ms -> 50.4 FPS
    assert_eq!(a.current_fps_tenths, Some(504));
    assert_eq!(a.current_fps_tenths, b.current_fps_tenths);
    stop_fps_monitor(&mut state).unwrap();
    let c = get_fps_status(&state).unwrap();
    assert!(!c.running);
    assert_eq!(c.process_name, None);
    assert_eq!(c.current_fps_tenths, Some(504));
}

#[test]
fn status_when_idle_has_no_fps() {
    let state = MonitorState::new();
    let s = get_fps_status(&state).unwrap();
    assert!(!s.running);
    assert_eq!(s.process_name, None);
    assert_eq!(s.current_fps_tenths, None);
}

#[test]
fn new_session_resets_history() {
    let (mut state, mut lp) = running_session("A");
    lp.feed_line(&mut state, HEADER, 0);
    lp.feed_line(&mut state, &frame("10"), 0);
    lp.finish(&mut state, 5);
    start_fps_monitor(&mut state, &"B".to_string()).unwrap();
    state.begin_session();
    assert!(state.all_frame_times.is_empty());
    assert_eq!(state.process_name, "B");
}
