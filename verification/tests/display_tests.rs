use monitor_ssd::display::{
    build_temp_bar, goodbye_line, header_lines, intro, log_line, status_line, waiting_line,
};
use monitor_ssd::size::{format_size, tenths_of_gib};

/// The bar as the terminal monitor has always drawn it.
fn reference_bar(temp: u8) -> String {
    let color = if temp < 40 {
        "\x1b[92m"
    } else if temp <= 55 {
        "\x1b[93m"
    } else {
        "\x1b[91m"
    };
    let filled = ((temp as usize * 20) / 100).min(20);
    format!(
        "{}[{}{}] {}°C\x1b[0m",
        color,
        "█".repeat(filled),
        "░".repeat(20 - filled),
        temp
    )
}

fn reference_size(bytes: Option<u64>) -> String {
    bytes
        .filter(|&b| b > 0)
        .map(|b| format!("{:.1} GB", b as f64 / 1_073_741_824.0))
        .unwrap_or_else(|| "? GB".to_string())
}

#[test]
fn temp_bar_matches_reference_for_every_temperature() {
    for t in 0..=255u8 {
        assert_eq!(build_temp_bar(t), reference_bar(t), "temperature {t}");
    }
}

#[test]
fn temp_bar_green_yellow_red_bands() {
    assert_eq!(build_temp_bar(38), "\x1b[92m[███████░░░░░░░░░░░░░] 38°C\x1b[0m");
    assert!(build_temp_bar(39).starts_with("\x1b[92m"));
    assert!(build_temp_bar(40).starts_with("\x1b[93m"));
    assert!(build_temp_bar(55).starts_with("\x1b[93m"));
    assert!(build_temp_bar(56).starts_with("\x1b[91m"));
}

#[test]
fn temp_bar_full_from_one_hundred_degrees() {
    let bar = build_temp_bar(100);
    assert_eq!(bar.matches('█').count(), 20);
    assert_eq!(bar.matches('░').count(), 0);
    let bar = build_temp_bar(0);
    assert_eq!(bar.matches('█').count(), 0);
    assert_eq!(bar.matches('░').count(), 20);
}

#[test]
fn format_size_unknown_or_zero() {
    assert_eq!(format_size(None), "? GB");
    assert_eq!(format_size(Some(0)), "? GB");
}

#[test]
fn format_size_whole_and_fractional() {
    assert_eq!(format_size(Some(1 << 30)), "1.0 GB");
    assert_eq!(format_size(Some(1_000_204_886_016)), "931.5 GB");
    assert_eq!(format_size(Some(512)), "0.0 GB");
}

#[test]
fn format_size_ties_round_to_even() {
    // 0.25 GiB and 0.75 GiB are exact halfway cases.
    assert_eq!(format_size(Some(1 << 28)), reference_size(Some(1 << 28)));
    assert_eq!(format_size(Some(3 << 28)), reference_size(Some(3 << 28)));
    assert_eq!(format_size(Some(1 << 28)), "0.2 GB");
    assert_eq!(format_size(Some(3 << 28)), "0.8 GB");
}

#[test]
fn format_size_matches_float_formatting() {
    let mut samples: Vec<u64> = vec![
        1,
        2,
        107_374_182,
        107_374_183,
        53_687_091,
        53_687_092,
        u64::MAX,
        u64::MAX - 1,
        (1u64 << 53) - 1,
        1u64 << 53,
        (1u64 << 53) + 1,
        (1u64 << 54) + 2,
        (1u64 << 54) + 6,
        (1u64 << 63) + 1024,
        (1u64 << 63) + 1025,
        256_060_514_304,
        4_000_787_030_016,
    ];
    let mut x: u64 = 0x9e37_79b9_7f4a_7c15;
    for _ in 0..20_000 {
        x ^= x << 13;
        x ^= x >> 7;
        x ^= x << 17;
        samples.push(x >> (x % 64));
        samples.push(((x % 40_000) * (1 << 26)) + (1 << 25));
    }
    for b in samples {
        assert_eq!(format_size(Some(b)), reference_size(Some(b)), "bytes {b}");
    }
}

#[test]
fn tenths_of_one_gibibyte() {
    assert_eq!(tenths_of_gib(1 << 30), 10);
    assert_eq!(tenths_of_gib(0), 0);
}

#[test]
fn header_is_centered_banner() {
    let lines = header_lines();
    let line = "=".repeat(54);
    assert_eq!(lines.len(), 3);
    assert_eq!(lines[0], format!("\x1b[96m{}\x1b[0m", line));
    assert_eq!(lines[1], format!("\x1b[96m\x1b[1m{:^54}\x1b[0m", "SSD TEMPERATURE MONITOR"));
    assert_eq!(lines[2], lines[0]);
}

#[test]
fn log_line_format() {
    assert_eq!(
        log_line("09:31:14", "0", "Samsung SSD 980 PRO 1TB", 38),
        "[09:31:14] Disk 0 (Samsung SSD 980 PRO 1TB) | Temperature: 38°C"
    );
}

#[test]
fn status_line_format() {
    let now = "09:47:02";
    assert_eq!(
        status_line(now, 41),
        format!("\r  [\x1b[90m{now}\x1b[0m] {}\x1b[K", reference_bar(41))
    );
}

#[test]
fn waiting_and_goodbye_texts() {
    assert_eq!(waiting_line(true), "\r  \x1b[90mWaiting for sensor data...\x1b[0m");
    assert_eq!(waiting_line(false), "\r  \x1b[90mWaiting for sensor data...\x1b[0m\x1b[K");
    assert_eq!(goodbye_line(), "\r\n\r\n  \x1b[96mMonitor stopped. Goodbye!\x1b[0m\r\n");
}

#[test]
fn intro_lines_name_disk_and_log() {
    let lines = intro("nvme0n1", "Samsung SSD", "ssd_temp.log");
    assert_eq!(lines.len(), 5);
    assert_eq!(lines[0], "");
    assert_eq!(lines[1], "  Monitoring: \x1b[93mSamsung SSD\x1b[0m  \x1b[90m(nvme0n1)\x1b[0m");
    assert_eq!(lines[2], "  Log file:   \x1b[93mssd_temp.log\x1b[0m");
    assert_eq!(lines[3], "  \x1b[90mPress Ctrl+C to quit.\x1b[0m");
    assert_eq!(lines[4], "");
}
