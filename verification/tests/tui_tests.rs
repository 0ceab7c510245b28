use helyos_cli::tui::{action_color, handle_key, pod_status_color, ActivePanel, App, Key};

#[test]
fn tab_cycles_through_panels() {
    let mut app = App::new();
    app.next_panel();
    assert_eq!(app.active_panel, ActivePanel::Nodes);
    app.next_panel();
    app.next_panel();
    assert_eq!(app.active_panel, ActivePanel::Pods);
    app.prev_panel();
    assert_eq!(app.active_panel, ActivePanel::Events);
    app.next_panel();
    assert_eq!(app.active_panel, ActivePanel::Pods);
}

#[test]
fn cursor_stays_in_the_list() {
    let mut app = App::new();
    app.refresh(Some((2, 1, 1)));
    assert!(app.connected);
    app.cursor_down();
    app.cursor_down();
    app.cursor_down();
    assert_eq!(app.pod_cursor, 1);
    app.cursor_up();
    app.cursor_up();
    assert_eq!(app.pod_cursor, 0);
    app.cursor_down();
    app.refresh(Some((1, 1, 1)));
    assert_eq!(app.pod_cursor, 0);
    app.refresh(None);
    assert!(!app.connected);
    assert_eq!(app.pods, 1);
}

#[test]
fn keys_map_to_actions() {
    let mut app = App::new();
    app.refresh(Some((3, 0, 2)));
    assert!(!handle_key(&mut app, Key::Char('j')));
    assert_eq!(app.pod_cursor, 1);
    assert!(!handle_key(&mut app, Key::Tab));
    assert!(!handle_key(&mut app, Key::Down));
    assert_eq!(app.node_cursor, 1);
    assert!(!handle_key(&mut app, Key::Char('?')));
    assert!(app.show_help);
    assert!(!handle_key(&mut app, Key::BackTab));
    assert_eq!(app.active_panel, ActivePanel::Pods);
    assert!(!handle_key(&mut app, Key::Char('k')));
    assert_eq!(app.pod_cursor, 0);
    assert!(!handle_key(&mut app, Key::Other));
    assert!(handle_key(&mut app, Key::Char('q')));
    assert!(handle_key(&mut app, Key::Esc));
}

#[test]
fn colours_of_statuses_and_actions() {
    assert_eq!(pod_status_color("Running"), (63, 185, 80));
    assert_eq!(pod_status_color("pending"), (86, 212, 221));
    assert_eq!(pod_status_color("???"), (230, 237, 243));
    assert_eq!(action_color("OOMKilled"), (248, 81, 73));
    assert_eq!(action_color("pulling"), (210, 153, 34));
    assert_eq!(action_color("deployed"), (63, 185, 80));
    assert_eq!(action_color("other"), (139, 148, 158));
}

#[test]
fn pushed_events_extend_the_list() {
    let mut app = App::new();
    app.push_event();
    app.push_event();
    assert_eq!(app.events, 2);
    app.next_panel();
    app.next_panel();
    assert_eq!(app.active_panel, ActivePanel::Events);
    app.cursor_down();
    assert_eq!(app.event_cursor, 1);
    app.cursor_down();
    assert_eq!(app.event_cursor, 1);
}

#[test]
fn help_popup_is_centred() {
    assert_eq!(helyos_cli::tui::help_popup(80, 24), (15, 5, 50, 14));
    assert_eq!(helyos_cli::tui::help_popup(20, 10), (2, 2, 16, 6));
    assert_eq!(helyos_cli::tui::visible_start(10, 6), 6);
    assert_eq!(helyos_cli::tui::visible_start(3, 6), 0);
    assert_eq!(helyos_cli::tui::visible_start(3, 1), 3);
}
