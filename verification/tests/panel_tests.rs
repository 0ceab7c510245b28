use helyos_cli::panel::Panel;

#[test]
fn panel_renders_kv_without_panic() {
    let output = Panel::new("Test")
        .kv(&[("Key1", "Value1"), ("Key2", "Value2")])
        .render_to_string();
    assert!(output.contains("Test"));
    assert!(output.contains("Key1"));
    assert!(output.contains("Value1"));
}

#[test]
fn panel_renders_table_without_panic() {
    let output = Panel::new("Pods")
        .count("3 total")
        .table(
            &["Name", "Status"],
            &[
                vec!["web".into(), "running".into()],
                vec!["api".into(), "failed".into()],
            ],
        )
        .render_to_string();
    assert!(output.contains("Pods"));
    assert!(output.contains("3 total"));
    assert!(output.contains("web"));
}

#[test]
fn panel_renders_steps_with_footer() {
    let output = Panel::new("Deploying")
        .subtitle("web-api")
        .steps(&[
            ("✓", "Image", "nginx:latest pulled"),
            ("✓", "Pod", "web-api-a1b running"),
        ])
        .footer_left("● Deployed")
        .footer_right("2/2 pods ready")
        .render_to_string();
    assert!(output.contains("Deploying"));
    assert!(output.contains("web-api"));
    assert!(output.contains("Deployed"));
}

#[test]
fn panel_respects_terminal_width() {
    let output = Panel::new("Test")
        .kv(&[("Key", "Value")])
        .render_to_string_with_width(40);
    for line in output.lines() {
        let stripped = console::strip_ansi_codes(line);
        let char_count = stripped.chars().count();
        assert!(char_count <= 42, "line too long ({char_count} chars): {stripped}");
    }
}

fn plain(output: &str) -> String {
    console::strip_ansi_codes(output).to_string()
}

#[test]
fn empty_panel_layout_is_exact() {
    let out = plain(&Panel::new("T").render_to_string_with_width(10));
    let lines: Vec<&str> = out.lines().collect();
    assert_eq!(lines.len(), 5);
    assert_eq!(lines[0], format!("┌{}┐", "─".repeat(28)));
    assert_eq!(lines[1], format!("│ T{}│", " ".repeat(25)));
    assert_eq!(lines[2], format!("├{}┤", "─".repeat(28)));
    assert_eq!(lines[3], format!("│{}│", " ".repeat(28)));
    assert_eq!(lines[4], format!("└{}┘", "─".repeat(28)));
}

#[test]
fn title_line_puts_count_at_the_right() {
    let out = plain(&Panel::new("Pods").subtitle("web").count("3 total").render_to_string_with_width(40));
    let lines: Vec<&str> = out.lines().collect();
    // inner 38: " Pods web" is 9 wide, count 7, padding 38 - 9 - 7 - 1 = 21, and the
    // count is followed directly by the border.
    assert_eq!(lines[1], format!("│ Pods web{}3 total│", " ".repeat(21)));
}

#[test]
fn kv_keys_are_right_aligned() {
    let out = plain(&Panel::new("T").kv(&[("Key", "Value")]).render_to_string_with_width(40));
    let lines: Vec<&str> = out.lines().collect();
    assert_eq!(lines[3], format!("│ {:>16}  Value{}│", "Key", " ".repeat(13)));
}

#[test]
fn table_columns_and_status_dots() {
    let out = plain(
        &Panel::new("Pods")
            .table(&["Name", "Status"], &[vec!["web".into(), "Running".into()], vec!["api".into(), "failed".into()]])
            .render_to_string_with_width(40),
    );
    let lines: Vec<&str> = out.lines().collect();
    assert_eq!(lines[3], format!("│ NAME  STATUS {}│", " ".repeat(23)));
    assert_eq!(lines[4], format!("│ {}│", "─".repeat(36)));
    assert!(lines[5].starts_with("│ web   ● running"));
    assert_eq!(lines[6], format!("│ {}│", "─".repeat(36)));
    assert!(lines[7].starts_with("│ api   ● failed"));
    assert_eq!(lines.len(), 9);
}

#[test]
fn footer_spans_the_inner_width() {
    let out = plain(&Panel::new("T").footer_left("left").footer_right("right").render_to_string_with_width(30));
    let lines: Vec<&str> = out.lines().collect();
    assert_eq!(lines[5], format!("│ left{}right │", " ".repeat(28 - 9 - 2)));
    assert_eq!(lines.len(), 7);
}

#[test]
fn coloured_panel_carries_escape_codes() {
    console::set_colors_enabled(true);
    let out = Panel::new("T").render_to_string_with_width(30);
    assert!(out.contains("\u{1b}[38;5;239m┌"));
    assert!(out.contains("\u{1b}[38;5;75mT\u{1b}[0m"));
}
