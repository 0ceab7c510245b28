//! The live dashboard's state (`helyos top`): which panel is active, the
//! cursors in the pod, node and event lists, and what each key does.
use vstd::prelude::*;
use crate::text::{eq_str, to_lowercase, unicode_lower};

verus! {

/// The dashboard's panels, in the order Tab visits them.
#[derive(Clone, Copy, Debug, PartialEq, Eq, Structural)]
pub enum ActivePanel {
    Pods,
    Nodes,
    Events,
}

pub open spec fn next_of(p: ActivePanel) -> ActivePanel {
    match p {
        ActivePanel::Pods => ActivePanel::Nodes,
        ActivePanel::Nodes => ActivePanel::Events,
        ActivePanel::Events => ActivePanel::Pods,
    }
}

pub open spec fn prev_of(p: ActivePanel) -> ActivePanel {
    match p {
        ActivePanel::Pods => ActivePanel::Events,
        ActivePanel::Nodes => ActivePanel::Pods,
        ActivePanel::Events => ActivePanel::Nodes,
    }
}

/// An event pushed by the daemon's event stream.
pub struct ClusterEvent {
    pub timestamp: String,
    pub kind: String,
    pub name: String,
    pub action: String,
    pub message: String,
}

/// The dashboard's state. The lists themselves live with the caller; the
/// state holds their lengths.
pub struct App {
    pub active_panel: ActivePanel,
    pub pods: usize,
    pub deployments: usize,
    pub nodes: usize,
    pub events: usize,
    pub pod_cursor: usize,
    pub node_cursor: usize,
    pub event_cursor: usize,
    pub connected: bool,
    pub show_help: bool,
}

/// The state after a refresh: the new list lengths (or the old ones when a
/// fetch failed, shown as disconnected), with the pod and node cursors
/// pulled back into their lists when those are not empty.
pub open spec fn refreshed(a: App, lists: Option<(usize, usize, usize)>) -> App {
    let b = match lists {
        Some((p, d, n)) => App { pods: p, deployments: d, nodes: n, connected: true, ..a },
        None => App { connected: false, ..a },
    };
    App {
        pod_cursor: if b.pods > 0 && b.pod_cursor >= b.pods {
            (b.pods - 1) as usize
        } else {
            b.pod_cursor
        },
        node_cursor: if b.nodes > 0 && b.node_cursor >= b.nodes {
            (b.nodes - 1) as usize
        } else {
            b.node_cursor
        },
        ..b
    }
}

/// A cursor inside its list (any cursor is fine for an empty list).
pub open spec fn in_list(cursor: usize, len: usize) -> bool {
    len > 0 ==> cursor < len
}

impl App {
    /// Every cursor points into its list.
    pub open spec fn cursors_ok(&self) -> bool {
        &&& in_list(self.pod_cursor, self.pods)
        &&& in_list(self.node_cursor, self.nodes)
        &&& in_list(self.event_cursor, self.events)
    }

    /// The state of a dashboard that has not loaded anything yet.
    pub fn new() -> (a: App)
        ensures
            a.active_panel == ActivePanel::Pods,
            a.pods == 0 && a.deployments == 0 && a.nodes == 0 && a.events == 0,
            a.pod_cursor == 0 && a.node_cursor == 0 && a.event_cursor == 0,
            !a.connected,
            !a.show_help,
    {
        App {
            active_panel: ActivePanel::Pods,
            pods: 0,
            deployments: 0,
            nodes: 0,
            events: 0,
            pod_cursor: 0,
            node_cursor: 0,
            event_cursor: 0,
            connected: false,
            show_help: false,
        }
    }

    /// Take in a refresh. `lists` holds the new numbers of pods, deployments
    /// and nodes when all three were fetched, `None` when a fetch failed (the
    /// lists are then kept and the dashboard shows it is disconnected). The
    /// pod and node cursors are pulled back into non-empty lists.
    pub fn refresh(&mut self, lists: Option<(usize, usize, usize)>)
        ensures
            *final(self) == refreshed(*old(self), lists),
    {
        match lists {
            Some((p, d, n)) => {
                self.pods = p;
                self.deployments = d;
                self.nodes = n;
                self.connected = true;
            },
            None => {
                self.connected = false;
            },
        }
        if self.pods > 0 && self.pod_cursor > self.pods - 1 {
            self.pod_cursor = self.pods - 1;
        }
        if self.nodes > 0 && self.node_cursor > self.nodes - 1 {
            self.node_cursor = self.nodes - 1;
        }
    }

    /// Move the active panel's cursor up one line (it stops at the top).
    pub fn cursor_up(&mut self)
        ensures
            *final(self) == (match old(self).active_panel {
                ActivePanel::Pods => App { pod_cursor: if old(self).pod_cursor > 0 { (old(self).pod_cursor - 1) as usize } else { 0 }, ..*old(self) },
                ActivePanel::Nodes => App { node_cursor: if old(self).node_cursor > 0 { (old(self).node_cursor - 1) as usize } else { 0 }, ..*old(self) },
                ActivePanel::Events => App { event_cursor: if old(self).event_cursor > 0 { (old(self).event_cursor - 1) as usize } else { 0 }, ..*old(self) },
            }),
    {
        match self.active_panel {
            ActivePanel::Pods => {
                self.pod_cursor = if self.pod_cursor > 0 { self.pod_cursor - 1 } else { 0 };
            },
            ActivePanel::Nodes => {
                self.node_cursor = if self.node_cursor > 0 { self.node_cursor - 1 } else { 0 };
            },
            ActivePanel::Events => {
                self.event_cursor = if self.event_cursor > 0 { self.event_cursor - 1 } else { 0 };
            },
        }
    }

    /// Move the active panel's cursor down one line (it stops at the last
    /// line; nothing moves in an empty list).
    pub fn cursor_down(&mut self)
        ensures
            *final(self) == (match old(self).active_panel {
                ActivePanel::Pods => App { pod_cursor: down(old(self).pod_cursor, old(self).pods), ..*old(self) },
                ActivePanel::Nodes => App { node_cursor: down(old(self).node_cursor, old(self).nodes), ..*old(self) },
                ActivePanel::Events => App { event_cursor: down(old(self).event_cursor, old(self).events), ..*old(self) },
            }),
    {
        match self.active_panel {
            ActivePanel::Pods => {
                if self.pods > 0 {
                    self.pod_cursor = step_down(self.pod_cursor, self.pods);
                }
            },
            ActivePanel::Nodes => {
                if self.nodes > 0 {
                    self.node_cursor = step_down(self.node_cursor, self.nodes);
                }
            },
            ActivePanel::Events => {
                if self.events > 0 {
                    self.event_cursor = step_down(self.event_cursor, self.events);
                }
            },
        }
    }

    /// Count one more event pushed by the event stream.
    pub fn push_event(&mut self)
        requires
            old(self).events < usize::MAX,
        ensures
            *final(self) == (App { events: (old(self).events + 1) as usize, ..*old(self) }),
    {
        self.events = self.events + 1;
    }

    /// Make the next panel active (Pods, Nodes, Events, then Pods again).
    pub fn next_panel(&mut self)
        ensures
            *final(self) == (App { active_panel: next_of(old(self).active_panel), ..*old(self) }),
    {
        self.active_panel = match self.active_panel {
            ActivePanel::Pods => ActivePanel::Nodes,
            ActivePanel::Nodes => ActivePanel::Events,
            ActivePanel::Events => ActivePanel::Pods,
        };
    }

    /// Make the previous panel active.
    pub fn prev_panel(&mut self)
        ensures
            *final(self) == (App { active_panel: prev_of(old(self).active_panel), ..*old(self) }),
    {
        self.active_panel = match self.active_panel {
            ActivePanel::Pods => ActivePanel::Events,
            ActivePanel::Nodes => ActivePanel::Pods,
            ActivePanel::Events => ActivePanel::Nodes,
        };
    }
}

/// The cursor after moving down in a list of `len` lines.
pub open spec fn down(cursor: usize, len: usize) -> usize {
    if len == 0 {
        cursor
    } else if cursor + 1 < len - 1 {
        (cursor + 1) as usize
    } else {
        (len - 1) as usize
    }
}

fn step_down(cursor: usize, len: usize) -> (r: usize)
    requires
        len > 0,
    ensures
        r == down(cursor, len),
{
    if cursor < len - 1 {
        cursor + 1
    } else {
        len - 1
    }
}

// ---------------------------------------------------------------------------
// Keys
// ---------------------------------------------------------------------------

/// The keys the dashboard reads.
#[derive(Clone, Copy, Debug, PartialEq, Eq, Structural)]
pub enum Key {
    Char(char),
    Esc,
    Tab,
    BackTab,
    Up,
    Down,
    Other,
}

/// The key quits the dashboard.
pub open spec fn quits(key: Key) -> bool {
    key == Key::Char('q') || key == Key::Esc
}

/// The state after a key that does not quit.
pub open spec fn after_key(a: App, key: Key) -> App {
    match key {
        Key::Tab => App { active_panel: next_of(a.active_panel), ..a },
        Key::BackTab => App { active_panel: prev_of(a.active_panel), ..a },
        Key::Up => up_of(a),
        Key::Char('k') => up_of(a),
        Key::Down => down_of(a),
        Key::Char('j') => down_of(a),
        Key::Char('?') => App { show_help: !a.show_help, ..a },
        _ => a,
    }
}

pub open spec fn up_of(a: App) -> App {
    match a.active_panel {
        ActivePanel::Pods => App { pod_cursor: if a.pod_cursor > 0 { (a.pod_cursor - 1) as usize } else { 0 }, ..a },
        ActivePanel::Nodes => App { node_cursor: if a.node_cursor > 0 { (a.node_cursor - 1) as usize } else { 0 }, ..a },
        ActivePanel::Events => App { event_cursor: if a.event_cursor > 0 { (a.event_cursor - 1) as usize } else { 0 }, ..a },
    }
}

pub open spec fn down_of(a: App) -> App {
    match a.active_panel {
        ActivePanel::Pods => App { pod_cursor: down(a.pod_cursor, a.pods), ..a },
        ActivePanel::Nodes => App { node_cursor: down(a.node_cursor, a.nodes), ..a },
        ActivePanel::Events => App { event_cursor: down(a.event_cursor, a.events), ..a },
    }
}

/// Act on a key: `q` or Esc quit (returns true), Tab and Shift-Tab switch
/// panels, Up/`k` and Down/`j` move the cursor, `?` toggles the help.
pub fn handle_key(app: &mut App, key: Key) -> (quit: bool)
    ensures
        quit == quits(key),
        quit ==> *final(app) == *old(app),
        !quit ==> *final(app) == after_key(*old(app), key),
{
    match key {
        Key::Char('q') | Key::Esc => true,
        Key::Tab => {
            app.next_panel();
            false
        },
        Key::BackTab => {
            app.prev_panel();
            false
        },
        Key::Up | Key::Char('k') => {
            app.cursor_up();
            false
        },
        Key::Down | Key::Char('j') => {
            app.cursor_down();
            false
        },
        Key::Char('?') => {
            app.show_help = !app.show_help;
            false
        },
        _ => false,
    }
}

// ---------------------------------------------------------------------------
// Laws
// ---------------------------------------------------------------------------

/// Tab three times comes back to the panel it started on.
pub proof fn next_panel_cycles(p: ActivePanel)
    ensures
        next_of(next_of(next_of(p))) == p,
{
}

/// Shift-Tab undoes Tab, and Tab undoes Shift-Tab.
pub proof fn prev_undoes_next(p: ActivePanel)
    ensures
        prev_of(next_of(p)) == p,
        next_of(prev_of(p)) == p,
{
}

/// No key moves a cursor out of its list.
pub proof fn keys_keep_cursors_in_lists(a: App, key: Key)
    requires
        a.cursors_ok(),
    ensures
        after_key(a, key).cursors_ok(),
{
}

/// A refresh keeps every cursor in its list.
pub proof fn refresh_keeps_cursors_in_lists(a: App, lists: Option<(usize, usize, usize)>)
    requires
        a.cursors_ok(),
    ensures
        refreshed(a, lists).cursors_ok(),
{
}

/// Up after Down comes back to the same line unless the cursor was on the
/// last line already.
pub proof fn up_undoes_down(a: App)
    requires
        a.cursors_ok(),
        match a.active_panel {
            ActivePanel::Pods => a.pod_cursor + 1 < a.pods,
            ActivePanel::Nodes => a.node_cursor + 1 < a.nodes,
            ActivePanel::Events => a.event_cursor + 1 < a.events,
        },
    ensures
        up_of(down_of(a)) == a,
{
}

// ---------------------------------------------------------------------------
// Layout
// ---------------------------------------------------------------------------

/// Where the help overlay goes in a screen `width` by `height` cells: at most
/// 50 by 14 cells and 4 cells smaller than the screen, centred; as `(x, y,
/// width, height)`.
pub fn help_popup(width: u16, height: u16) -> (r: (u16, u16, u16, u16))
    requires
        width >= 4,
        height >= 4,
    ensures
        r.2 == (if width - 4 < 50 { width - 4 } else { 50 }),
        r.3 == (if height - 4 < 14 { height - 4 } else { 14 }),
        r.0 == (width - r.2) / 2,
        r.1 == (height - r.3) / 2,
{
    let w: u16 = if width - 4 < 50 {
        width - 4
    } else {
        50
    };
    let h: u16 = if height - 4 < 14 {
        height - 4
    } else {
        14
    };
    ((width - w) / 2, (height - h) / 2, w, h)
}

/// The first of `len` lines shown in a bordered box `height` cells high: as
/// many of the last lines as fit inside the borders.
pub fn visible_start(len: usize, height: u16) -> (r: usize)
    ensures
        r == (if len > (if height >= 2 { height - 2 } else { 0 }) {
            len - (if height >= 2 { height - 2 } else { 0 })
        } else {
            0
        }),
{
    let visible: usize = if height >= 2 {
        (height - 2) as usize
    } else {
        0
    };
    if len > visible {
        len - visible
    } else {
        0
    }
}

// ---------------------------------------------------------------------------
// Colours
// ---------------------------------------------------------------------------

/// The colour of a pod status in the pod table (case-insensitive).
pub open spec fn pod_status_rgb_of_lower(s: Seq<char>) -> (u8, u8, u8) {
    if s == "running"@ {
        (63, 185, 80)
    } else if s == "pending"@ || s == "creating"@ {
        (86, 212, 221)
    } else if s == "restarting"@ || s == "degraded"@ {
        (210, 153, 34)
    } else if s == "failed"@ || s == "crashloopbackoff"@ {
        (248, 81, 73)
    } else if s == "stopped"@ || s == "stopping"@ {
        (72, 79, 88)
    } else {
        (230, 237, 243)
    }
}

/// The RGB colour of a pod status in the dashboard.
pub fn pod_status_color(status: &str) -> (c: (u8, u8, u8))
    ensures
        c == pod_status_rgb_of_lower(unicode_lower(status@)),
{
    let l = to_lowercase(status);
    let s = l.as_str();
    if eq_str(s, "running") {
        (63, 185, 80)
    } else if eq_str(s, "pending") || eq_str(s, "creating") {
        (86, 212, 221)
    } else if eq_str(s, "restarting") || eq_str(s, "degraded") {
        (210, 153, 34)
    } else if eq_str(s, "failed") || eq_str(s, "crashloopbackoff") {
        (248, 81, 73)
    } else if eq_str(s, "stopped") || eq_str(s, "stopping") {
        (72, 79, 88)
    } else {
        (230, 237, 243)
    }
}

/// The colour of an event's action (case-insensitive).
pub open spec fn action_rgb_of_lower(s: Seq<char>) -> (u8, u8, u8) {
    if s == "started"@ || s == "deployed"@ || s == "scaled"@ {
        (63, 185, 80)
    } else if s == "pending"@ || s == "pulling"@ {
        (210, 153, 34)
    } else if s == "died"@ || s == "oomkilled"@ || s == "failed"@ {
        (248, 81, 73)
    } else {
        (139, 148, 158)
    }
}

/// The RGB colour of an event's action in the event list.
pub fn action_color(action: &str) -> (c: (u8, u8, u8))
    ensures
        c == action_rgb_of_lower(unicode_lower(action@)),
{
    let l = to_lowercase(action);
    let s = l.as_str();
    if eq_str(s, "started") || eq_str(s, "deployed") || eq_str(s, "scaled") {
        (63, 185, 80)
    } else if eq_str(s, "pending") || eq_str(s, "pulling") {
        (210, 153, 34)
    } else if eq_str(s, "died") || eq_str(s, "oomkilled") || eq_str(s, "failed") {
        (248, 81, 73)
    } else {
        (139, 148, 158)
    }
}

} // verus!
