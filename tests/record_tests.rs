use gamebench::decimal::parse_field_ns;
use gamebench::record::{parse_csv_line, parse_header};
use gamebench::text::chars_of;

fn header() -> Vec<String> {
    parse_header("Application,ProcessID,SwapChainAddress,Runtime,SyncInterval,FrameTime,CPUBusy,GPUBusy")
}

fn line_with_frametime(ft: &str) -> String {
    format!("game.exe,1234,0x1,DXGI,0,{},2.5,7.25", ft)
}

fn field(s: &str) -> Option<(bool, u64, bool)> {
    let cs = chars_of(s);
    parse_field_ns(&cs, 0, cs.len())
}

#[test]
fn frame_time_bounds_are_exclusive() {
    let h = header();
    assert!(parse_csv_line(&h, &line_with_frametime("0")).is_none());
    assert!(parse_csv_line(&h, &line_with_frametime("1000")).is_none());
    assert!(parse_csv_line(&h, &line_with_frametime("1000.0")).is_none());
    assert!(parse_csv_line(&h, &line_with_frametime("-3")).is_none());
    let low = parse_csv_line(&h, &line_with_frametime("0.001")).unwrap();
    assert_eq!(low.frametime_ns, 1_000);
    let high = parse_csv_line(&h, &line_with_frametime("999.999")).unwrap();
    assert_eq!(high.frametime_ns, 999_999_000);
}

#[test]
fn record_fields_are_found_by_name() {
    let h = header();
    let r = parse_csv_line(&h, "game.exe,1234,0x1,DXGI,0,16.6667,2.5,7.25").unwrap();
    assert_eq!(r.process_name, "game.exe");
    assert_eq!(r.frametime_ns, 16_666_700);
    assert_eq!(r.cpu_busy_ns, 2_500_000);
    assert_eq!(r.gpu_busy_ns, 7_250_000);
}

#[test]
fn legacy_and_alternate_column_names() {
    let h = parse_header("GPUTime,MsBetweenPresents,x,Application,y");
    let r = parse_csv_line(&h, "3.5,8,z,app.exe,w").unwrap();
    assert_eq!(r.process_name, "app.exe");
    assert_eq!(r.frametime_ns, 8_000_000);
    assert_eq!(r.gpu_busy_ns, 3_500_000);
    // no CPUBusy column: column 0 is read, here a number
    assert_eq!(r.cpu_busy_ns, 3_500_000);
}

#[test]
fn missing_busy_data_reads_as_zero() {
    let h = parse_header("Application,a,b,c,FrameTime");
    let r = parse_csv_line(&h, "app.exe,1,2,3,10").unwrap();
    assert_eq!(r.cpu_busy_ns, 0);
    assert_eq!(r.gpu_busy_ns, 0);
}

#[test]
fn short_or_headerless_lines_are_rejected() {
    let h = header();
    assert!(parse_csv_line(&h, "single").is_none());
    assert!(parse_csv_line(&h, "a,b,c,d").is_none());
    let empty: Vec<String> = Vec::new();
    assert!(parse_csv_line(&empty, "game.exe,1,2,3,4,5,6").is_none());
    let no_frametime = parse_header("Application,a,b,c,d");
    assert!(parse_csv_line(&no_frametime, "game.exe,1,2,3,4").is_none());
}

#[test]
fn header_names_are_trimmed() {
    let h = parse_header("  Application , FrameTime,CPUBusy  \r\n");
    assert_eq!(h, vec!["Application".to_string(), "FrameTime".to_string(), "CPUBusy".to_string()]);
}

#[test]
fn decimal_fields() {
    assert_eq!(field("16.6667"), Some((false, 16_666_700, true)));
    assert_eq!(field("+2"), Some((false, 2_000_000, true)));
    assert_eq!(field("-1.5"), Some((true, 1_500_000, true)));
    assert_eq!(field("-0"), Some((true, 0, false)));
    assert_eq!(field("5."), Some((false, 5_000_000, true)));
    assert_eq!(field(".5"), Some((false, 500_000, true)));
    assert_eq!(field("0.1234567"), Some((false, 123_456, true)));
    assert_eq!(field("0.0000004"), Some((false, 0, true)));
    assert_eq!(field("."), None);
    assert_eq!(field(""), None);
    assert_eq!(field("-"), None);
    assert_eq!(field("abc"), None);
    assert_eq!(field(" 1"), None);
    assert_eq!(field("1.2.3"), None);
    assert_eq!(field("18446744073709"), Some((false, 18_446_744_073_709_000_000, true)));
    assert_eq!(field("18446744073710"), None);
    assert_eq!(field("18446744073709.551615"), Some((false, u64::MAX, true)));
    assert_eq!(field("99999999999999999999999"), None);
}

#[test]
fn decimal_exponents() {
    assert_eq!(field("1e3"), Some((false, 1_000_000_000, true)));
    assert_eq!(field("1.5e1"), Some((false, 15_000_000, true)));
    assert_eq!(field("2E-3"), Some((false, 2_000, true)));
    assert_eq!(field("25e+0"), Some((false, 25_000_000, true)));
    assert_eq!(field("123456.789e-5"), Some((false, 1_234_567, true)));
    assert_eq!(field("1e-7"), Some((false, 0, true)));
    assert_eq!(field("0e5"), Some((false, 0, false)));
    assert_eq!(field("5.e1"), Some((false, 50_000_000, true)));
    assert_eq!(field("1e"), None);
    assert_eq!(field("1e+"), None);
    assert_eq!(field("1e5x"), None);
    assert_eq!(field("e5"), None);
    assert_eq!(field("1e99999999999999999999999"), None);
    assert_eq!(field("1e-99999999999999999999999"), Some((false, 0, true)));
    assert_eq!(field("0e99999999999999999999999"), Some((false, 0, false)));
}

#[test]
fn tiny_and_exponent_frame_times() {
    let h = header();
    let tiny = parse_csv_line(&h, &line_with_frametime("0.0000004")).unwrap();
    assert_eq!(tiny.frametime_ns, 1);
    let exp = parse_csv_line(&h, &line_with_frametime("1e1")).unwrap();
    assert_eq!(exp.frametime_ns, 10_000_000);
    assert!(parse_csv_line(&h, &line_with_frametime("1e3")).is_none());
    assert!(parse_csv_line(&h, &line_with_frametime("0e1")).is_none());
    assert!(parse_csv_line(&h, &line_with_frametime("0.0")).is_none());
    let below = parse_csv_line(&h, &line_with_frametime("999.9999999")).unwrap();
    assert_eq!(below.frametime_ns, 999_999_999);
}
