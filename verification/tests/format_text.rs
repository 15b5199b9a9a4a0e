use localdrop::utils::hash::{format_eta, format_size, format_speed};

fn float_size(bytes: u64) -> String {
    if bytes < 1024 {
        format!("{} B", bytes)
    } else if bytes < 1024 * 1024 {
        format!("{:.1} KB", bytes as f64 / 1024.0)
    } else if bytes < 1024 * 1024 * 1024 {
        format!("{:.1} MB", bytes as f64 / (1024.0 * 1024.0))
    } else {
        format!("{:.2} GB", bytes as f64 / (1024.0 * 1024.0 * 1024.0))
    }
}

fn float_speed(bytes_per_second: u64) -> String {
    if bytes_per_second < 1024 {
        format!("{} B/s", bytes_per_second)
    } else if bytes_per_second < 1024 * 1024 {
        format!("{:.1} KB/s", bytes_per_second as f64 / 1024.0)
    } else {
        format!("{:.1} MB/s", bytes_per_second as f64 / (1024.0 * 1024.0))
    }
}

fn samples() -> Vec<u64> {
    let mut v = vec![0, 1, 9, 10, 99, 100, 1023, 1024, 1025, 1075, 1076, 1126, 1127, 1280, 1331, 1536, 1792, 2048, 2304, 5000,
        10239, 10240, 102_400, 1_048_575, 1_048_576, 1_310_720, 1_363_148, 1_415_577, 1_572_864,
        1_073_741_823, 1_073_741_824, 1_084_479_242, 1_085_552_984, 1_079_110_533, 1_610_612_736,
        (1u64 << 53) - 1, 1u64 << 53, (1u64 << 53) + 1, (1u64 << 53) + 3, (1u64 << 54) + 2, (1u64 << 54) + 6,
        u64::MAX, u64::MAX - 1, u64::MAX - 1024, 0x7FFF_FFFF_FFFF_FFFF, 0x8000_0000_0000_0400];
    let mut x: u64 = 0x9E37_79B9_7F4A_7C15;
    for _ in 0..20000 {
        x ^= x << 13;
        x ^= x >> 7;
        x ^= x << 17;
        let shift = (x % 64) as u32;
        v.push(x >> shift);
    }
    for k in 0..4096u64 {
        v.push(k * 512);
        v.push((1 << 20) + k * (1 << 19) / 8);
        v.push((1 << 30) + k * (1 << 26));
    }
    v
}

#[test]
fn size_matches_float_rendering() {
    for b in samples() {
        assert_eq!(format_size(b), float_size(b), "bytes {}", b);
    }
}

#[test]
fn speed_matches_float_rendering() {
    for b in samples() {
        assert_eq!(format_speed(b), float_speed(b), "bytes {}", b);
    }
}

#[test]
fn size_examples() {
    assert_eq!(format_size(0), "0 B");
    assert_eq!(format_size(1023), "1023 B");
    assert_eq!(format_size(1024), "1.0 KB");
    assert_eq!(format_size(1536), "1.5 KB");
    assert_eq!(format_size(1024 * 1024), "1.0 MB");
    assert_eq!(format_size(1024 * 1024 * 1024), "1.00 GB");
    assert_eq!(format_size(1610612736), "1.50 GB");
}

#[test]
fn speed_examples() {
    assert_eq!(format_speed(500), "500 B/s");
    assert_eq!(format_speed(2048), "2.0 KB/s");
    assert_eq!(format_speed(3 * 1024 * 1024), "3.0 MB/s");
}

#[test]
fn eta_examples() {
    assert_eq!(format_eta(0), "--");
    assert_eq!(format_eta(5), "5s");
    assert_eq!(format_eta(59), "59s");
    assert_eq!(format_eta(60), "1:00");
    assert_eq!(format_eta(65), "1:05");
    assert_eq!(format_eta(3599), "59:59");
    assert_eq!(format_eta(3600), "1:00:00");
    assert_eq!(format_eta(3661), "1:01:01");
    assert_eq!(format_eta(86400 + 7), "24:00:07");
}
