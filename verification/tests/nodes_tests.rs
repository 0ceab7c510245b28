use helyos_cli::nodes::{format_bytes, format_gauge};

#[test]
fn gauge_fills_sixteenths() {
    let g = console::strip_ansi_codes(&format_gauge(50)).to_string();
    assert_eq!(g, format!("{}{}  50%", "█".repeat(8), "░".repeat(8)));
    let full = console::strip_ansi_codes(&format_gauge(100)).to_string();
    assert_eq!(full, format!("{} 100%", "█".repeat(16)));
    let empty = console::strip_ansi_codes(&format_gauge(0)).to_string();
    assert_eq!(empty, format!("{}   0%", "░".repeat(16)));
}

#[test]
fn gauge_colour_follows_thresholds() {
    console::set_colors_enabled(true);
    assert!(format_gauge(85).starts_with("\u{1b}[38;5;203m"));
    assert!(format_gauge(60).starts_with("\u{1b}[38;5;178m"));
    assert!(format_gauge(59).starts_with("\u{1b}[38;5;77m"));
}

#[test]
fn byte_sizes_pick_a_unit() {
    assert_eq!(format_bytes(512), "512B");
    assert_eq!(format_bytes(1_048_576), "1Mi");
    assert_eq!(format_bytes(1_572_864), "2Mi");
    assert_eq!(format_bytes(2_621_440), "2Mi");
    assert_eq!(format_bytes(1_073_741_824), "1.0Gi");
    assert_eq!(format_bytes(1_610_612_736), "1.5Gi");
    assert_eq!(format_bytes(u64::MAX / 2), format!("{:.1}Gi", (u64::MAX / 2) as f64 / 1_073_741_824.0));
}
