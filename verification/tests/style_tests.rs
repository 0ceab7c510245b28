use helyos_cli::style::{color, icon, paint, status_dot, status_style, strip_ansi_codes, wants_nerd_icons, GREEN, RED};

#[test]
fn status_dot_formats_correctly() {
    let dot = status_dot("running");
    assert!(dot.contains("running"));
}

#[test]
fn status_color_maps_correctly() {
    // Force ANSI colours on so styling is reflected in the formatted strings
    // even when stdout is not a TTY.
    console::set_colors_enabled(true);

    let green_str = paint(color("green"), "x");
    let red_str = paint(color("red"), "x");
    let yellow_str = paint(color("yellow"), "x");

    assert_ne!(green_str, red_str);
    assert_ne!(green_str, yellow_str);
    assert_ne!(red_str, yellow_str);
}

#[test]
fn icon_returns_unicode_by_default() {
    let nerd = wants_nerd_icons(None);
    assert_eq!(icon("pod", nerd), "●");
    assert_eq!(icon("success", nerd), "✓");
    assert_eq!(icon("error", nerd), "✗");
}

#[test]
fn status_style_returns_correct_color() {
    assert_eq!(status_style("running"), GREEN);
    assert_eq!(status_style("CrashLoopBackOff"), RED);
    assert_eq!(status_style("unknown-xyz"), 245);
}

#[test]
fn nerd_icons_on_request() {
    assert!(wants_nerd_icons(Some("NERD")));
    assert!(!wants_nerd_icons(Some("unicode")));
    assert_eq!(icon("pod", true), "\u{f111}");
    assert_eq!(icon("nope", false), "?");
}

#[test]
fn painted_text_has_exact_escape_codes() {
    console::set_colors_enabled(true);
    assert_eq!(paint(Some(77), "ok"), "\u{1b}[38;5;77mok\u{1b}[0m");
    assert_eq!(paint(None, "ok"), "ok");
    assert_eq!(color("border"), Some(239));
    assert_eq!(color("bogus"), None);
}

#[test]
fn status_dot_lowercases_and_paints() {
    console::set_colors_enabled(true);
    assert_eq!(status_dot("RUNNING"), "\u{1b}[38;5;77m● running\u{1b}[0m");
}

#[test]
fn stripping_removes_escape_codes() {
    assert_eq!(helyos_cli::style::strip_ansi_codes("\u{1b}[38;5;77mok\u{1b}[0m"), "ok");
}

#[test]
fn statuses_ignore_case() {
    for (a, b) in [("Running", "running"), ("FAILED", "failed"), ("CrashLoopBackOff", "crashloopbackoff"), ("Odd", "odd")] {
        assert_eq!(status_style(a), status_style(b));
        assert_eq!(strip_ansi_codes(&status_dot(a)), strip_ansi_codes(&status_dot(b)));
    }
    assert_eq!(strip_ansi_codes(&status_dot("RUNNING")), "● running");
}

#[test]
fn plain_text_survives_stripping() {
    assert_eq!(strip_ansi_codes("plain text ●"), "plain text ●");
    assert_eq!(strip_ansi_codes("\u{1b}[1mbold\u{1b}[0m"), "bold");
}

#[test]
fn a_stripped_status_dot_is_its_lower_cased_text() {
    for s in ["Running", "FAILED", "pending", "Odd Status"] {
        assert_eq!(strip_ansi_codes(&status_dot(s)), format!("● {}", s.to_lowercase()));
        assert_eq!(strip_ansi_codes(&status_dot(s)), strip_ansi_codes(&status_dot(&s.to_lowercase())));
    }
    assert_eq!(strip_ansi_codes("\u{1b}[38;5;42mok\u{1b}[0m"), "ok");
}
