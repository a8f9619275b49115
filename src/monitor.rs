//! One monitoring session: the state shared by the control calls and the
//! ingest loop, the loop's own state, and the events it produces.
//!
//! The caller owns the lock around `MonitorState`, the capture process and the
//! clock: it hands each output line here with the milliseconds elapsed since
//! the session began, and emits the events it gets back.

use crate::metrics::{
    fps_tenths, fps_tenths_of, hundredths_ms, mean_fps, mean_fps_tenths, mean_hundredths_ms,
    min_max, ms_to_tenths_secs, ns_to_hundredths_ms, percentile_low, percentile_low_fps,
    range_total, seq_max, seq_min, tenths_secs, total,
};
use crate::record::{header_names, names_view, parse_csv_line, parse_header, parse_record};
use crate::text::{chars_of, trim, trim_range};
use vstd::prelude::*;

verus! {

/// Milliseconds between two live snapshots.
pub const WINDOW_MS: u64 = 1000;

/// How many of the latest frames a status inquiry averages.
pub const RECENT_FRAMES: usize = 60;

/// Percentile of the "1% low", in tenths of a percent.
pub const ONE_PERCENT: u64 = 10;

/// Percentile of the "0.1% low", in tenths of a percent.
pub const TENTH_PERCENT: u64 = 1;

/// A live snapshot of the last window. FPS values are in tenths, durations in
/// hundredths of a millisecond, the elapsed time in tenths of a second.
pub struct FpsSnapshot {
    pub fps_tenths: u128,
    pub fps_1_low_tenths: u128,
    pub fps_01_low_tenths: u128,
    pub frametime_hundredths_ms: u128,
    pub cpu_busy_hundredths_ms: u64,
    pub gpu_busy_hundredths_ms: u64,
    pub process_name: String,
    pub elapsed_tenths_secs: u64,
}

/// Summary of a whole session, in the units of `FpsSnapshot`.
pub struct FpsSession {
    pub process_name: String,
    pub avg_fps_tenths: u128,
    pub fps_1_low_tenths: u128,
    pub fps_01_low_tenths: u128,
    pub max_fps_tenths: u128,
    pub min_fps_tenths: u128,
    pub total_frames: u64,
    pub duration_tenths_secs: u64,
}

/// Answer to a status inquiry.
pub struct FpsStatus {
    pub running: bool,
    pub process_name: Option<String>,
    pub current_fps_tenths: Option<u128>,
}

/// What a session tells its subscriber.
pub enum MonitorEvent {
    Started(String),
    Update(FpsSnapshot),
    SessionComplete(FpsSession),
    Stopped(String),
    Error(String),
}

/// What the ingest loop does after a line.
pub enum LoopAction {
    /// A stop was requested: read no further.
    Stop,
    /// Read the next line.
    Continue,
    /// Emit the event, then read the next line.
    Emit(MonitorEvent),
}

/// The state shared by the control calls and the ingest loop.
pub struct MonitorState {
    pub running: bool,
    pub process_name: String,
    /// Every accepted frame time of the current session, in nanoseconds.
    pub all_frame_times: Vec<u64>,
}

/// State private to one run of the ingest loop.
pub struct IngestLoop {
    pub process_name: String,
    /// Column names; empty until the first non-empty line.
    pub header: Vec<String>,
    /// Frame times since the last snapshot.
    pub window: Vec<u64>,
    /// When the current window began, in milliseconds since the session began.
    pub window_start_ms: u64,
}

/// Every recorded frame took some time: what the ingest loop keeps.
pub open spec fn frames_positive(history: Seq<u64>) -> bool {
    forall|i: int| 0 <= i < history.len() ==> history[i] > 0
}

/// `snap` is the snapshot of `window`, taken when a frame with the given busy
/// times arrived at `now_ms`.
pub open spec fn is_snapshot(
    snap: FpsSnapshot,
    window: Seq<u64>,
    cpu_busy_ns: u64,
    gpu_busy_ns: u64,
    name: Seq<char>,
    now_ms: u64,
) -> bool {
    &&& snap.fps_tenths == mean_fps(window)
    &&& snap.fps_1_low_tenths == percentile_low(window, ONE_PERCENT as int)
    &&& snap.fps_01_low_tenths == percentile_low(window, TENTH_PERCENT as int)
    &&& snap.frametime_hundredths_ms == hundredths_ms(total(window), window.len() as int)
    &&& snap.cpu_busy_hundredths_ms == hundredths_ms(cpu_busy_ns as int, 1)
    &&& snap.gpu_busy_hundredths_ms == hundredths_ms(gpu_busy_ns as int, 1)
    &&& snap.process_name@ == name
    &&& snap.elapsed_tenths_secs == tenths_secs(now_ms as int)
}

/// `s` summarises the non-empty `history` of a session that ran `now_ms`.
pub open spec fn is_summary(s: FpsSession, history: Seq<u64>, name: Seq<char>, now_ms: u64) -> bool {
    &&& s.process_name@ == name
    &&& s.avg_fps_tenths == mean_fps(history)
    &&& s.fps_1_low_tenths == percentile_low(history, ONE_PERCENT as int)
    &&& s.fps_01_low_tenths == percentile_low(history, TENTH_PERCENT as int)
    &&& s.max_fps_tenths == fps_tenths(seq_min(history) as int, 1)
    &&& s.min_fps_tenths == fps_tenths(seq_max(history) as int, 1)
    &&& s.total_frames == history.len()
    &&& s.duration_tenths_secs == tenths_secs(now_ms as int)
}

/// FPS in tenths over the latest (at most sixty) frames, if there are any.
pub open spec fn recent_fps(history: Seq<u64>) -> Option<int> {
    let n = history.len() as int;
    let m = if n < RECENT_FRAMES {
        n
    } else {
        RECENT_FRAMES as int
    };
    if n == 0 {
        None
    } else {
        Some(fps_tenths(total(history.subrange(n - m, n)), m))
    }
}

/// The error of a start request while a session runs.
pub open spec fn already_monitoring(name: Seq<char>) -> Seq<char> {
    "already monitoring "@ + name
}

/// Snapshot of `window`, taken when a frame with the given busy times arrived.
pub fn window_snapshot(
    window: &Vec<u64>,
    cpu_busy_ns: u64,
    gpu_busy_ns: u64,
    process_name: &String,
    now_ms: u64,
) -> (r: FpsSnapshot)
    ensures
        is_snapshot(r, window@, cpu_busy_ns, gpu_busy_ns, process_name@, now_ms),
{
    FpsSnapshot {
        fps_tenths: mean_fps_tenths(window),
        fps_1_low_tenths: percentile_low_fps(window, ONE_PERCENT),
        fps_01_low_tenths: percentile_low_fps(window, TENTH_PERCENT),
        frametime_hundredths_ms: mean_hundredths_ms(window),
        cpu_busy_hundredths_ms: ns_to_hundredths_ms(cpu_busy_ns),
        gpu_busy_hundredths_ms: ns_to_hundredths_ms(gpu_busy_ns),
        process_name: process_name.clone(),
        elapsed_tenths_secs: ms_to_tenths_secs(now_ms),
    }
}

/// Summary of a non-empty session history.
pub fn session_summary(history: &Vec<u64>, process_name: &String, now_ms: u64) -> (r: FpsSession)
    requires
        history.len() > 0,
    ensures
        is_summary(r, history@, process_name@, now_ms),
{
    let (lo, hi) = min_max(history);
    FpsSession {
        process_name: process_name.clone(),
        avg_fps_tenths: mean_fps_tenths(history),
        fps_1_low_tenths: percentile_low_fps(history, ONE_PERCENT),
        fps_01_low_tenths: percentile_low_fps(history, TENTH_PERCENT),
        max_fps_tenths: fps_tenths_of(lo as u128, 1),
        min_fps_tenths: fps_tenths_of(hi as u128, 1),
        total_frames: history.len() as u64,
        duration_tenths_secs: ms_to_tenths_secs(now_ms),
    }
}

impl MonitorState {
    /// An idle state with no session.
    pub fn new() -> (r: Self)
        ensures
            !r.running,
            r.process_name@.len() == 0,
            r.all_frame_times@.len() == 0,
    {
        MonitorState { running: false, process_name: String::new(), all_frame_times: Vec::new() }
    }

    /// The capture is up: the history starts empty and the started event
    /// names the process. A stop requested while starting stays in force: the
    /// loop then stops at its first line.
    pub fn begin_session(&mut self) -> (r: MonitorEvent)
        ensures
            final(self).running == old(self).running,
            final(self).process_name == old(self).process_name,
            final(self).all_frame_times@.len() == 0,
            r matches MonitorEvent::Started(n) && n@ == old(self).process_name@,
    {
        self.all_frame_times = Vec::new();
        MonitorEvent::Started(self.process_name.clone())
    }

    /// The capture could not be located or launched: the session is released
    /// and the error is reported.
    pub fn abort_start(&mut self, message: String) -> (r: MonitorEvent)
        ensures
            !final(self).running,
            final(self).process_name == old(self).process_name,
            final(self).all_frame_times == old(self).all_frame_times,
            r matches MonitorEvent::Error(m) && m@ == message@,
    {
        self.running = false;
        MonitorEvent::Error(message)
    }

    /// FPS in tenths over the latest (at most sixty) frames.
    pub fn recent_fps_tenths(&self) -> (r: Option<u128>)
        ensures
            r matches Some(v) ==> recent_fps(self.all_frame_times@) == Some(v as int),
            r is None ==> recent_fps(self.all_frame_times@) is None,
    {
        let n = self.all_frame_times.len();
        if n == 0 {
            return None;
        }
        let m = if n < RECENT_FRAMES {
            n
        } else {
            RECENT_FRAMES
        };
        let sum = range_total(&self.all_frame_times, n - m, n);
        Some(fps_tenths_of(sum, m as u64))
    }
}

impl IngestLoop {
    /// The loop for a session on `process_name`, before any line; its first
    /// window begins with the session.
    pub fn new(process_name: String) -> (r: Self)
        ensures
            r.process_name@ == process_name@,
            r.header@.len() == 0,
            r.window@.len() == 0,
            r.window_start_ms == 0,
    {
        IngestLoop { process_name, header: Vec::new(), window: Vec::new(), window_start_ms: 0 }
    }

    /// Handles one output line that arrived `now_ms` after the session began.
    ///
    /// A cleared active flag stops the loop before the line is looked at. Blank
    /// lines are skipped; the first other line is the header; each later one
    /// is parsed, and a rejected one is dropped. An accepted frame time joins
    /// the window and the history; once a window has lasted a second, its
    /// snapshot is emitted and a new window begins.
    pub fn feed_line(&mut self, state: &mut MonitorState, line: &str, now_ms: u64) -> (r: LoopAction)
        ensures
            final(state).running == old(state).running,
            final(state).process_name == old(state).process_name,
            final(self).process_name == old(self).process_name,
            frames_positive(old(state).all_frame_times@) ==> frames_positive(
                final(state).all_frame_times@,
            ),
            !old(state).running ==> r is Stop && *final(self) == *old(self) && *final(state)
                == *old(state),
            old(state).running && trim(line@).len() == 0 ==> r is Continue && *final(self)
                == *old(self) && *final(state) == *old(state),
            old(state).running && trim(line@).len() > 0 && old(self).header@.len() == 0 ==> {
                &&& r is Continue
                &&& names_view(final(self).header@) == header_names(trim(line@))
                &&& final(self).header@.len() > 0
                &&& final(self).window == old(self).window
                &&& final(self).window_start_ms == old(self).window_start_ms
                &&& final(state).all_frame_times == old(state).all_frame_times
            },
            old(state).running && trim(line@).len() > 0 && old(self).header@.len() > 0 ==> {
                let names = names_view(old(self).header@);
                match parse_record(names, trim(line@)) {
                    None => r is Continue && *final(self) == *old(self) && *final(state)
                        == *old(state),
                    Some((_, ft, cpu, gpu)) => {
                        let w = old(self).window@.push(ft);
                        &&& final(state).all_frame_times@ == old(state).all_frame_times@.push(ft)
                        &&& final(self).header == old(self).header
                        &&& if now_ms >= old(self).window_start_ms + WINDOW_MS {
                            &&& final(self).window@.len() == 0
                            &&& final(self).window_start_ms == now_ms
                            &&& r matches LoopAction::Emit(MonitorEvent::Update(snap))
                            &&& is_snapshot(snap, w, cpu, gpu, old(self).process_name@, now_ms)
                        } else {
                            &&& r is Continue
                            &&& final(self).window@ == w
                            &&& final(self).window_start_ms == old(self).window_start_ms
                        }
                    },
                }
            },
    {
        if !state.running {
            return LoopAction::Stop;
        }
        let cs = chars_of(line);
        let (lo, hi) = trim_range(&cs, 0, cs.len());
        assert(cs@.subrange(0, cs@.len() as int) =~= cs@);
        if lo == hi {
            return LoopAction::Continue;
        }
        let trimmed = line.substring_char(lo, hi);
        if self.header.len() == 0 {
            self.header = parse_header(trimmed);
            proof {
                crate::text::lemma_split_nonempty(trim(trimmed@), ',');
                assert(names_view(self.header@).len() == self.header@.len());
                assert(header_names(trimmed@).len() == crate::text::split_on(trim(trimmed@), ',').len());
            }
            return LoopAction::Continue;
        }
        match parse_csv_line(&self.header, trimmed) {
            None => LoopAction::Continue,
            Some(rec) => {
                self.window.push(rec.frametime_ns);
                state.all_frame_times.push(rec.frametime_ns);
                if now_ms >= self.window_start_ms && now_ms - self.window_start_ms >= WINDOW_MS {
                    let snap = window_snapshot(
                        &self.window,
                        rec.cpu_busy_ns,
                        rec.gpu_busy_ns,
                        &self.process_name,
                        now_ms,
                    );
                    self.window = Vec::new();
                    self.window_start_ms = now_ms;
                    LoopAction::Emit(MonitorEvent::Update(snap))
                } else {
                    LoopAction::Continue
                }
            },
        }
    }

    /// The stream has ended or a stop was observed: the session becomes
    /// inactive; a summary is emitted if any frame was accepted, and then,
    /// always, the stopped event.
    pub fn finish(&self, state: &mut MonitorState, now_ms: u64) -> (r: Vec<MonitorEvent>)
        ensures
            !final(state).running,
            final(state).process_name == old(state).process_name,
            final(state).all_frame_times == old(state).all_frame_times,
            old(state).all_frame_times@.len() == 0 ==> r@.len() == 1,
            old(state).all_frame_times@.len() > 0 ==> {
                &&& r@.len() == 2
                &&& r@[0] matches MonitorEvent::SessionComplete(s)
                &&& is_summary(s, old(state).all_frame_times@, old(state).process_name@, now_ms)
            },
            r@.last() matches MonitorEvent::Stopped(n) && n@ == self.process_name@,
    {
        state.running = false;
        let mut events: Vec<MonitorEvent> = Vec::new();
        if state.all_frame_times.len() > 0 {
            let s = session_summary(&state.all_frame_times, &state.process_name, now_ms);
            events.push(MonitorEvent::SessionComplete(s));
        }
        events.push(MonitorEvent::Stopped(self.process_name.clone()));
        events
    }
}

/// Answers a start request. While a session is active (or starting) it is
/// refused, naming the process monitored, and nothing changes. Otherwise the
/// session is claimed for `process_name` at once, so that a second request
/// fails; the history of the previous session stays until the capture is up.
/// The caller then launches the capture and calls `begin_session`, which
/// starts the new history, or `abort_start` if the launch fails, which leaves
/// the history as it was.
pub fn start_fps_monitor(state: &mut MonitorState, process_name: &String) -> (r: Result<(), String>)
    ensures
        old(state).running ==> (r matches Err(msg) && msg@ == already_monitoring(
            old(state).process_name@,
        )) && *final(state) == *old(state),
        !old(state).running ==> r is Ok && final(state).running && final(state).process_name@
            == process_name@ && final(state).all_frame_times == old(state).all_frame_times,
{
    if state.running {
        let msg = String::from_str("already monitoring ").concat(state.process_name.as_str());
        Err(msg)
    } else {
        state.running = true;
        state.process_name = process_name.clone();
        Ok(())
    }
}

/// Requests a stop: the session is marked inactive, and the ingest loop stops
/// at its next line. Succeeds also when nothing runs, and then changes
/// nothing. It produces no event: the stopped event comes only from the ingest
/// loop's `finish`. The caller terminates the capture process.
pub fn stop_fps_monitor(state: &mut MonitorState) -> (r: Result<(), String>)
    ensures
        r is Ok,
        !final(state).running,
        final(state).process_name == old(state).process_name,
        final(state).all_frame_times == old(state).all_frame_times,
        !old(state).running ==> *final(state) == *old(state),
{
    state.running = false;
    Ok(())
}

/// Whether a session runs, for which process, and the FPS of its latest frames.
pub fn get_fps_status(state: &MonitorState) -> (r: Result<FpsStatus, String>)
    ensures
        r matches Ok(st) && {
            &&& st.running == state.running
            &&& (state.running ==> (st.process_name matches Some(n) && n@ == state.process_name@))
            &&& (!state.running ==> st.process_name is None)
            &&& (st.current_fps_tenths matches Some(v) ==> recent_fps(state.all_frame_times@)
                == Some(v as int))
            &&& (st.current_fps_tenths is None ==> recent_fps(state.all_frame_times@) is None)
        },
{
    let process_name = if state.running {
        Some(state.process_name.clone())
    } else {
        None
    };
    Ok(FpsStatus { running: state.running, process_name, current_fps_tenths: state.recent_fps_tenths() })
}

/// A status inquiry's FPS depends on the history alone: asked again with no
/// new frames, it gives the same value.
pub proof fn lemma_status_fps_stable(a: MonitorState, b: MonitorState)
    requires
        a.all_frame_times@ == b.all_frame_times@,
    ensures
        recent_fps(a.all_frame_times@) == recent_fps(b.all_frame_times@),
{
}

/// In every snapshot the 0.1% low is at most the 1% low, which is at most the
/// window's FPS.
pub proof fn lemma_snapshot_lows_ordered(
    snap: FpsSnapshot,
    window: Seq<u64>,
    cpu_busy_ns: u64,
    gpu_busy_ns: u64,
    name: Seq<char>,
    now_ms: u64,
)
    requires
        window.len() > 0,
        is_snapshot(snap, window, cpu_busy_ns, gpu_busy_ns, name, now_ms),
    ensures
        snap.fps_01_low_tenths <= snap.fps_1_low_tenths <= snap.fps_tenths,
{
    crate::metrics::lemma_lows_ordered(window);
}

/// In every session summary of frames that each took some time:
/// min FPS <= 0.1% low <= 1% low <= average FPS <= max FPS.
pub proof fn lemma_summary_lows_ordered(s: FpsSession, history: Seq<u64>, name: Seq<char>, now_ms: u64)
    requires
        history.len() > 0,
        frames_positive(history),
        is_summary(s, history, name, now_ms),
    ensures
        s.min_fps_tenths <= s.fps_01_low_tenths,
        s.fps_01_low_tenths <= s.fps_1_low_tenths <= s.avg_fps_tenths,
        s.avg_fps_tenths <= s.max_fps_tenths,
{
    crate::metrics::lemma_lows_ordered(history);
    crate::metrics::lemma_slowest_frame_below_lows(history, TENTH_PERCENT as int);
    crate::metrics::lemma_mean_below_fastest_frame(history);
}

} // verus!
