use sysmon::charts::{format_bytes, usage_label};

#[test]
fn formats_byte_scales() {
    assert_eq!(format_bytes(512), "512.0 B");
    assert_eq!(format_bytes(1024), "1.0 KB");
    assert_eq!(format_bytes(1536), "1.5 KB");
    assert_eq!(format_bytes(1024 * 1024), "1.0 MB");
    assert_eq!(format_bytes(3 * 1024 * 1024 * 1024), "3.0 GB");
}

/// Byte formatting through a double, one decimal.
fn through_double(bytes: u64) -> String {
    const UNITS: [&str; 5] = ["B", "KB", "MB", "GB", "TB"];
    let mut value = bytes as f64;
    let mut unit = 0;
    while value >= 1024.0 && unit < UNITS.len() - 1 {
        value /= 1024.0;
        unit += 1;
    }
    format!("{value:.1} {}", UNITS[unit])
}

#[test]
fn matches_double_formatting_on_many_values() {
    let mut values: Vec<u64> = (0..5000).collect();
    for shift in 0..64 {
        let p = 1u64 << shift;
        for d in [0u64, 1, 2, 3, 51, 52, 102, 103, 512, 1023] {
            values.push(p.wrapping_add(d));
            values.push(p.wrapping_sub(d));
        }
    }
    // Exact halves of a tenth (ties) in each unit.
    for unit in 1..5u32 {
        let scale = 1u64 << (10 * unit);
        for k in [1u64, 3, 5, 7, 9, 11, 101, 1023] {
            values.push(scale + k * scale / 20);
            values.push(scale * 3 + k * scale / 20);
        }
    }
    let mut x: u64 = 0x9E37_79B9_7F4A_7C15;
    for _ in 0..20000 {
        x ^= x << 13;
        x ^= x >> 7;
        x ^= x << 17;
        values.push(x);
        values.push(x >> (x % 64));
    }
    values.push(u64::MAX);
    values.push((1u64 << 53) + 1);
    values.push((1u64 << 53) + 3);
    for v in values {
        assert_eq!(format_bytes(v), through_double(v), "bytes = {v}");
    }
}

#[test]
fn largest_unit_is_tb() {
    assert_eq!(format_bytes(1u64 << 50), "1024.0 TB");
    assert_eq!(format_bytes(u64::MAX), "16777216.0 TB");
}

#[test]
fn rounds_up_into_next_unit_value() {
    assert_eq!(format_bytes(1023), "1023.0 B");
    assert_eq!(format_bytes(1024 * 1024 - 1), "1024.0 KB");
}

#[test]
fn ties_round_to_even_tenth() {
    // 1.25 KB and 1.75 KB are exact halves of a tenth.
    assert_eq!(format_bytes(1280), "1.2 KB");
    assert_eq!(format_bytes(1792), "1.8 KB");
}

#[test]
fn usage_caption_with_and_without_label() {
    assert_eq!(usage_label("RAM", 512, 1024), "RAM: 512.0 B / 1.0 KB");
    assert_eq!(usage_label("", 0, 0), "0.0 B / 0.0 B");
}
