use sysmon::panels::{contains_str, gpu_name, is_gpu_sensor, mentions_gpu, MemoryPanel};

#[test]
fn memory_captions() {
    let mut m = MemoryPanel::new();
    m.refresh(1024 * 1024 * 1024, 8 * 1024 * 1024 * 1024, 0, 2048);
    assert_eq!(m.ram_label(), "RAM: 1.0 GB / 8.0 GB");
    assert_eq!(m.swap_label(), "Swap: 0.0 B / 2.0 KB");
}

#[test]
fn gpu_sensors_by_label() {
    assert!(is_gpu_sensor("GPU Core"));
    assert!(is_gpu_sensor("amdgpu edge"));
    assert!(is_gpu_sensor("AMD Radeon"));
    assert!(is_gpu_sensor("RADEON"));
    assert!(!is_gpu_sensor("CPU Package"));
    assert!(!is_gpu_sensor(""));
}

#[test]
fn substring_search() {
    assert!(contains_str("abcabd", "abd"));
    assert!(contains_str("abc", ""));
    assert!(!contains_str("ab", "abc"));
    assert!(!contains_str("aXbc", "abc"));
}

#[test]
fn lower_cased_labels_by_substring() {

    assert!(mentions_gpu("nvidia gpu"));
    assert!(mentions_gpu("radeon rx"));
    assert!(!mentions_gpu("GPU"));
    assert!(!mentions_gpu("cpu die"));
}

#[test]
fn gpu_names_fall_back_to_their_index() {
    assert_eq!(gpu_name(0, Some("RTX 4090".to_string())), "RTX 4090");
    assert_eq!(gpu_name(0, None), "GPU 0");
    assert_eq!(gpu_name(12, None), "GPU 12");
}
