use gamebench::capture::{capture_args, first_line_of, launch_failure, resolve_capture_binary, BinaryLocation};

#[test]
fn development_path_wins() {
    let r = resolve_capture_binary(true, false, None);
    assert!(matches!(r, Ok(BinaryLocation::Development)));
}

#[test]
fn bundled_binary_is_next() {
    let r = resolve_capture_binary(false, true, Some("C:\\other\\PresentMon.exe".to_string()));
    assert!(matches!(r, Ok(BinaryLocation::Bundled)));
}

#[test]
fn unresolved_resource_dir_falls_back_to_path() {
    let r = resolve_capture_binary(false, false, Some("C:\\p.exe\n".to_string()));
    match r {
        Ok(BinaryLocation::OnPath(p)) => assert_eq!(p, "C:\\p.exe"),
        _ => panic!("expected a path"),
    }
}

#[test]
fn path_lookup_takes_first_line() {
    let r = resolve_capture_binary(
        false,
        false,
        Some("  C:\\tools\\PresentMon.exe \r\nD:\\second\\PresentMon.exe\r\n".to_string()),
    );
    match r {
        Ok(BinaryLocation::OnPath(p)) => assert_eq!(p, "C:\\tools\\PresentMon.exe"),
        _ => panic!("expected a path"),
    }
}

#[test]
fn not_found_has_guidance() {
    for lookup in [None, Some(String::new()), Some("   \nC:\\x.exe".to_string())] {
        let msg = resolve_capture_binary(false, false, lookup).err().unwrap();
        assert!(msg.contains("PresentMon.exe not found"));
        assert!(msg.contains("https://github.com/GameTechDev/PresentMon/releases"));
    }
}

#[test]
fn first_line_of_output() {
    assert_eq!(first_line_of(""), "");
    assert_eq!(first_line_of("abc"), "abc");
    assert_eq!(first_line_of(" a b \nc"), "a b");
}

#[test]
fn launch_arguments() {
    let args = capture_args(&"game.exe".to_string());
    assert_eq!(
        args,
        vec![
            "--output_stdout".to_string(),
            "--stop_existing_session".to_string(),
            "--terminate_on_proc_exit".to_string(),
            "--process_name".to_string(),
            "game.exe".to_string(),
        ]
    );
}

#[test]
fn launch_failure_message() {
    assert_eq!(
        launch_failure("access denied"),
        "failed to launch PresentMon: access denied. Make sure the app runs as administrator."
    );
}
