use sharkmanager::size::human_size;

/// Float-based reference used to cross-check the integer implementation.
fn float_reference(bytes: u64) -> String {
    let units = ["B", "KB", "MB", "GB", "TB"];
    if bytes == 0 {
        return "0 B".to_string();
    }
    let mut size = bytes as f64;
    let mut unit = 0;
    while size >= 1024.0 && unit < units.len() - 1 {
        size /= 1024.0;
        unit += 1;
    }
    if unit == 0 {
        format!("{} {}", bytes, units[unit])
    } else {
        format!("{:.1} {}", size, units[unit])
    }
}

#[test]
fn human_size_exact_values() {
    assert_eq!(human_size(0), "0 B");
    assert_eq!(human_size(1), "1 B");
    assert_eq!(human_size(1023), "1023 B");
    assert_eq!(human_size(1024), "1.0 KB");
    assert_eq!(human_size(1536), "1.5 KB");
    assert_eq!(human_size(1048576), "1.0 MB");
    assert_eq!(human_size(5 * 1024 * 1024 * 1024), "5.0 GB");
    assert_eq!(human_size(1u64 << 40), "1.0 TB");
    assert_eq!(human_size(1u64 << 50), "1024.0 TB");
}

#[test]
fn human_size_ties_round_to_even() {
    // 1280 bytes is exactly 1.25 KB; 1.75 KB is 1792 bytes.
    assert_eq!(human_size(1280), float_reference(1280));
    assert_eq!(human_size(1792), float_reference(1792));
    assert_eq!(human_size(1280), "1.2 KB");
    assert_eq!(human_size(1792), "1.8 KB");
}

#[test]
fn human_size_matches_float_formatting() {
    let mut b: u64 = 1;
    while b < u64::MAX / 3 {
        for delta in [0u64, 1, 2, 3, 511, 512, 513, 1023] {
            let x = b.wrapping_add(delta);
            assert_eq!(human_size(x), float_reference(x), "bytes = {}", x);
            let y = b.wrapping_sub(delta);
            assert_eq!(human_size(y), float_reference(y), "bytes = {}", y);
        }
        b = b * 3 / 2 + 1;
    }
    for x in [u64::MAX, u64::MAX - 1, u64::MAX - 2048, (1u64 << 53) + 1, (1u64 << 53) + 3, (5u64 << 58) + (1u64 << 7)] {
        assert_eq!(human_size(x), float_reference(x), "bytes = {}", x);
    }
    let mut x: u64 = 1000;
    while x < 3_000_000 {
        assert_eq!(human_size(x), float_reference(x), "bytes = {}", x);
        x += 7;
    }
}
