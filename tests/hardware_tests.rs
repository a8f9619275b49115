use gamebench::hardware::{
    bytes_to_tenths_gib, clean_cpu_name, cpu_identity, gpu_summary, replace_str, virtual_adapter,
};

#[test]
fn cpu_names_are_tidied() {
    assert_eq!(clean_cpu_name("Intel(R) Core(TM) i7-8700K CPU @ 3.70GHz"), "Intel Core i7-8700K CPU");
    assert_eq!(clean_cpu_name("  AMD Ryzen 7 5800X 8-Core Processor   "), "AMD Ryzen 7 5800X 8-Core Processor");
    assert_eq!(clean_cpu_name(""), "");
}

#[test]
fn replace_is_left_to_right() {
    assert_eq!(replace_str("a   b", "  ", " "), "a  b");
    assert_eq!(replace_str("aaa", "aa", "b"), "ba");
    assert_eq!(replace_str("xyz", "q", "r"), "xyz");
}

#[test]
fn memory_in_tenths_of_gib() {
    assert_eq!(bytes_to_tenths_gib(8 * 1_073_741_824), 80);
    assert_eq!(bytes_to_tenths_gib(4_293_918_720), 40);
    assert_eq!(bytes_to_tenths_gib(0), 0);
    assert_eq!(bytes_to_tenths_gib(53_687_092), 1);
    assert_eq!(bytes_to_tenths_gib(53_687_091), 0);
}

#[test]
fn virtual_adapters() {
    assert!(virtual_adapter("Microsoft Basic Render Driver"));
    assert!(virtual_adapter("Remote Display Adapter"));
    assert!(!virtual_adapter("NVIDIA GeForce RTX 3060"));
}

#[test]
fn gpu_summaries() {
    assert!(gpu_summary("Microsoft Basic Display Adapter".to_string(), 0, None, 0, 0).is_none());
    let g = gpu_summary("NVIDIA GeForce RTX 3060".to_string(), 4_293_918_720, None, 1920, 1080).unwrap();
    assert_eq!(g.name, "NVIDIA GeForce RTX 3060");
    assert_eq!(g.vram_tenths_gib, 40);
    assert_eq!(g.driver_version, "Unknown");
    assert_eq!(g.resolution, Some((1920, 1080)));
    let h = gpu_summary("AMD Radeon".to_string(), 0, Some("31.0.1".to_string()), 0, 1080).unwrap();
    assert_eq!(h.driver_version, "31.0.1");
    assert_eq!(h.resolution, None);
}

#[test]
fn cpu_identity_defaults() {
    let (name, cores) = cpu_identity(Some("AMD Ryzen(TM) 5 @ 3.6GHz".to_string()), 12, Some(6));
    assert_eq!(name, "AMD Ryzen 5");
    assert_eq!(cores, 6);
    let (name, cores) = cpu_identity(None, 8, None);
    assert_eq!(name, "Unknown CPU");
    assert_eq!(cores, 4);
}
