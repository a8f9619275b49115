use gamebench::metrics::{
    mean_fps_tenths, mean_hundredths_ms, min_max, ms_to_tenths_secs, ns_to_hundredths_ms,
    percentile_low_fps, rounded_div,
};

const MS: u64 = 1_000_000;

fn window() -> Vec<u64> {
    vec![10 * MS, 10 * MS, 10 * MS, 10 * MS, 20 * MS]
}

#[test]
fn window_with_one_stall() {
    let w = window();
    assert_eq!(mean_hundredths_ms(&w), 1200);
    assert_eq!(mean_fps_tenths(&w), 833);
    assert_eq!(percentile_low_fps(&w, 10), 500);
    assert_eq!(percentile_low_fps(&w, 1), 500);
}

#[test]
fn full_percentile_equals_mean_fps() {
    let cases: Vec<Vec<u64>> = vec![
        window(),
        vec![16_666_667],
        vec![7 * MS, 33 * MS, 12_500_000, 9 * MS, 41 * MS, 16 * MS],
    ];
    for c in cases {
        assert_eq!(percentile_low_fps(&c, 1000), mean_fps_tenths(&c));
    }
}

#[test]
fn lows_are_ordered() {
    let mut v: Vec<u64> = Vec::new();
    for i in 0..2000u64 {
        v.push(5 * MS + (i * 7919 % 300) * 100_000);
    }
    let low01 = percentile_low_fps(&v, 1);
    let low1 = percentile_low_fps(&v, 10);
    let fps = mean_fps_tenths(&v);
    assert!(low01 <= low1);
    assert!(low1 <= fps);
    assert!(low01 < fps);
}

#[test]
fn percentile_sorts_unsorted_input() {
    // worst 2 of 200 frames (1%): 50 ms and 40 ms, mean 45 ms -> 22.2 FPS
    let mut v: Vec<u64> = vec![10 * MS; 198];
    v.insert(17, 50 * MS);
    v.insert(3, 40 * MS);
    assert_eq!(percentile_low_fps(&v, 10), 222);
    // worst 1 (0.1%, clamped to one frame): 50 ms -> 20.0 FPS
    assert_eq!(percentile_low_fps(&v, 1), 200);
}

#[test]
fn empty_sequence_gives_zero() {
    let v: Vec<u64> = Vec::new();
    assert_eq!(percentile_low_fps(&v, 10), 0);
    assert_eq!(mean_fps_tenths(&v), 0);
    assert_eq!(mean_hundredths_ms(&v), 0);
}

#[test]
fn all_zero_frames_give_zero() {
    let v: Vec<u64> = vec![0, 0, 0];
    assert_eq!(percentile_low_fps(&v, 10), 0);
    assert_eq!(mean_fps_tenths(&v), 0);
}

#[test]
fn rounding_is_half_up() {
    assert_eq!(rounded_div(5, 2), 3);
    assert_eq!(rounded_div(4, 3), 1);
    assert_eq!(rounded_div(5, 3), 2);
    assert_eq!(rounded_div(0, 7), 0);
    assert_eq!(rounded_div(u128::MAX, 1), u128::MAX);
    assert_eq!(ns_to_hundredths_ms(4_995_000), 500);
    assert_eq!(ns_to_hundredths_ms(4_994_999), 499);
    assert_eq!(ms_to_tenths_secs(1_250), 13);
    assert_eq!(ms_to_tenths_secs(1_249), 12);
}

#[test]
fn min_and_max_frame_times() {
    let v: Vec<u64> = vec![7, 3, 9, 3, 8];
    assert_eq!(min_max(&v), (3, 9));
}
