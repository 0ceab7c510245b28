//! The terminal palette, icons and status colouring.
//!
//! A colour is a 256-colour terminal code; painting a text with it goes
//! through the `console` crate, which emits the escape codes only when the
//! terminal takes colours.
use vstd::prelude::*;
use crate::text::{ascii_lowered, concat2, dec, eq_str, is_ascii_str, owned, to_lowercase, unicode_lower};

verus! {

// ---------------------------------------------------------------------------
// Palette
// ---------------------------------------------------------------------------

/// The 256-colour code of a semantic colour name of the GitHub Dark palette.
pub open spec fn color_code(name: Seq<char>) -> Option<u8> {
    if name == "bg"@ { Some(0u8) }
    else if name == "surface"@ { Some(236u8) }
    else if name == "border"@ { Some(239u8) }
    else if name == "border-subtle"@ { Some(237u8) }
    else if name == "text"@ { Some(253u8) }
    else if name == "text-secondary"@ { Some(245u8) }
    else if name == "text-muted"@ { Some(240u8) }
    else if name == "accent"@ { Some(75u8) }
    else if name == "green"@ { Some(77u8) }
    else if name == "yellow"@ { Some(178u8) }
    else if name == "red"@ { Some(203u8) }
    else if name == "cyan"@ { Some(80u8) }
    else { None }
}

pub const BORDER: u8 = 239;
pub const BORDER_SUBTLE: u8 = 237;
pub const TEXT: u8 = 253;
pub const TEXT_SECONDARY: u8 = 245;
pub const TEXT_MUTED: u8 = 240;
pub const ACCENT: u8 = 75;
pub const GREEN: u8 = 77;
pub const YELLOW: u8 = 178;
pub const RED: u8 = 203;
pub const CYAN: u8 = 80;

/// The colour for a semantic name (`bg`, `surface`, `border`,
/// `border-subtle`, `text`, `text-secondary`, `text-muted`, `accent`,
/// `green`, `yellow`, `red`, `cyan`); `None` (plain) for any other name.
pub fn color(name: &str) -> (r: Option<u8>)
    ensures
        r == color_code(name@),
{
    proof {
        reveal_strlit("bg");
        reveal_strlit("surface");
        reveal_strlit("border");
        reveal_strlit("border-subtle");
        reveal_strlit("text");
        reveal_strlit("text-secondary");
        reveal_strlit("text-muted");
        reveal_strlit("accent");
        reveal_strlit("green");
        reveal_strlit("yellow");
        reveal_strlit("red");
        reveal_strlit("cyan");
    }
    if eq_str(name, "bg") { Some(0) }
    else if eq_str(name, "surface") { Some(236) }
    else if eq_str(name, "border") { Some(BORDER) }
    else if eq_str(name, "border-subtle") { Some(BORDER_SUBTLE) }
    else if eq_str(name, "text") { Some(TEXT) }
    else if eq_str(name, "text-secondary") { Some(TEXT_SECONDARY) }
    else if eq_str(name, "text-muted") { Some(TEXT_MUTED) }
    else if eq_str(name, "accent") { Some(ACCENT) }
    else if eq_str(name, "green") { Some(GREEN) }
    else if eq_str(name, "yellow") { Some(YELLOW) }
    else if eq_str(name, "red") { Some(RED) }
    else if eq_str(name, "cyan") { Some(CYAN) }
    else { None }
}

// ---------------------------------------------------------------------------
// Painting
// ---------------------------------------------------------------------------

/// The escape code that selects a 256-colour foreground.
pub open spec fn fg_code(code: u8) -> Seq<char> {
    seq!['\u{1b}', '['] + "38;5;"@ + dec(code as nat) + seq!['m']
}

/// The escape code that resets all attributes.
pub open spec fn reset_code() -> Seq<char> {
    seq!['\u{1b}', '[', '0', 'm']
}

/// `out` is what painting `text` in colour `code` may print: the text
/// itself when the terminal takes no colours, else the text between the
/// colour's escape code and a reset.
pub open spec fn painted(code: Option<u8>, text: Seq<char>, out: Seq<char>) -> bool {
    match code {
        None => out == text,
        Some(c) => out == text || out == fg_code(c) + text + reset_code(),
    }
}

/// Paint `text` with a 256-colour foreground (`console::Style::color256`
/// applied and displayed). Whether escape codes are written depends on the
/// process's colour setting (terminal detection, `NO_COLOR`), so either
/// outcome is possible.
#[verifier::external_body]
fn paint256(code: u8, text: &str) -> (r: String)
    ensures
        painted(Some(code), text@, r@),
{
    format!("{}", console::Style::new().color256(code).apply_to(text))
}

/// Paint `text` in colour `code`, or leave it plain when there is none.
pub fn paint(code: Option<u8>, text: &str) -> (r: String)
    ensures
        painted(code, text@, r@),
{
    match code {
        Some(c) => paint256(c, text),
        None => owned(text),
    }
}

/// What `console::strip_ansi_codes` leaves of a string: the text without its
/// ANSI escape sequences.
pub uninterp spec fn ansi_stripped(s: Seq<char>) -> Seq<char>;

/// No escape sequence can start in `t`: it holds no ESC and no CSI character.
pub open spec fn no_escape_start(t: Seq<char>) -> bool {
    forall|i: int| 0 <= i < t.len() ==> #[trigger] t[i] != '\u{1b}' && t[i] != '\u{9b}'
}

/// `console::strip_ansi_codes`: the text without its ANSI escape sequences.
/// Stripping never lengthens a string; text in which no sequence can start
/// comes back unchanged; and such text painted with a 256-colour foreground
/// and a reset (the `ESC [ 38;5;n m` and `ESC [ 0 m` sequences) comes back as
/// the text alone.
#[verifier::external_body]
pub fn strip_ansi_codes(s: &str) -> (r: String)
    ensures
        r@ == ansi_stripped(s@),
        crate::text::byte_len(r@) <= crate::text::byte_len(s@),
        no_escape_start(s@) ==> r@ == s@,
        forall|c: u8, t: Seq<char>|
            #![trigger fg_code(c), no_escape_start(t)]
            no_escape_start(t) && s@ == fg_code(c) + t + reset_code() ==> r@ == t,
{
    console::strip_ansi_codes(s).into_owned()
}

// ---------------------------------------------------------------------------
// Icons
// ---------------------------------------------------------------------------

/// The icon for a semantic name: Unicode symbols, or Nerd Font glyphs when
/// `nerd` is set (from `HELYOS_ICONS=nerd`); `?` for unknown names.
pub open spec fn icon_spec(name: Seq<char>, nerd: bool) -> Seq<char> {
    if nerd {
        if name == "cluster"@ { seq!['\u{f1340}'] }
        else if name == "node"@ { seq!['\u{f109}'] }
        else if name == "pod"@ { seq!['\u{f111}'] }
        else if name == "deploy"@ { seq!['\u{f013}'] }
        else if name == "event"@ { seq!['\u{f0f3}'] }
        else if name == "success"@ { seq!['\u{f00c}'] }
        else if name == "error"@ { seq!['\u{f00d}'] }
        else if name == "warning"@ { seq!['\u{f071}'] }
        else if name == "running"@ { seq!['\u{f011}'] }
        else { seq!['?'] }
    } else {
        if name == "cluster"@ { seq!['⊞'] }
        else if name == "node"@ { seq!['◆'] }
        else if name == "pod"@ { seq!['●'] }
        else if name == "deploy"@ { seq!['◎'] }
        else if name == "event"@ { seq!['•'] }
        else if name == "success"@ { seq!['✓'] }
        else if name == "error"@ { seq!['✗'] }
        else if name == "warning"@ { seq!['⚠'] }
        else if name == "running"@ { seq!['⏻'] }
        else { seq!['?'] }
    }
}

fn one_char(c: char) -> (r: String)
    ensures
        r@ == seq![c],
{
    let mut r = String::new();
    crate::text::push_char(&mut r, c);
    r
}

/// The terminal icon for a semantic name (`cluster`, `node`, `pod`, `deploy`,
/// `event`, `success`, `error`, `warning`, `running`).
pub fn icon(name: &str, nerd: bool) -> (r: String)
    ensures
        r@ == icon_spec(name@, nerd),
{
    proof {
        reveal_strlit("cluster");
        reveal_strlit("node");
        reveal_strlit("pod");
        reveal_strlit("deploy");
        reveal_strlit("event");
        reveal_strlit("success");
        reveal_strlit("error");
        reveal_strlit("warning");
        reveal_strlit("running");
    }
    let c = if nerd {
        if eq_str(name, "cluster") { '\u{f1340}' }
        else if eq_str(name, "node") { '\u{f109}' }
        else if eq_str(name, "pod") { '\u{f111}' }
        else if eq_str(name, "deploy") { '\u{f013}' }
        else if eq_str(name, "event") { '\u{f0f3}' }
        else if eq_str(name, "success") { '\u{f00c}' }
        else if eq_str(name, "error") { '\u{f00d}' }
        else if eq_str(name, "warning") { '\u{f071}' }
        else if eq_str(name, "running") { '\u{f011}' }
        else { '?' }
    } else {
        if eq_str(name, "cluster") { '⊞' }
        else if eq_str(name, "node") { '◆' }
        else if eq_str(name, "pod") { '●' }
        else if eq_str(name, "deploy") { '◎' }
        else if eq_str(name, "event") { '•' }
        else if eq_str(name, "success") { '✓' }
        else if eq_str(name, "error") { '✗' }
        else if eq_str(name, "warning") { '⚠' }
        else if eq_str(name, "running") { '⏻' }
        else { '?' }
    };
    one_char(c)
}

/// Whether `HELYOS_ICONS` asks for Nerd Font icons (its value, lower-cased, is `nerd`).
pub fn wants_nerd_icons(setting: Option<&str>) -> (b: bool)
    ensures
        b == match setting {
            Some(v) => unicode_lower(v@) == "nerd"@,
            None => false,
        },
{
    match setting {
        Some(v) => {
            let l = to_lowercase(v);
            eq_str(l.as_str(), "nerd")
        },
        None => false,
    }
}

// ---------------------------------------------------------------------------
// Status colours
// ---------------------------------------------------------------------------

/// The colour of a lower-cased status.
pub open spec fn status_code_of_lower(lower: Seq<char>) -> u8 {
    if lower == "running"@ {
        GREEN
    } else if lower == "pending"@ || lower == "creating"@ {
        CYAN
    } else if lower == "restarting"@ || lower == "degraded"@ {
        YELLOW
    } else if lower == "failed"@ || lower == "crashloopbackoff"@ {
        RED
    } else if lower == "stopped"@ || lower == "stopping"@ {
        TEXT_MUTED
    } else {
        TEXT_SECONDARY
    }
}

/// The colour of a status, case-insensitively.
pub open spec fn status_code(status: Seq<char>) -> u8 {
    status_code_of_lower(unicode_lower(status))
}

/// The colour of an already lower-cased status: running green, pending or
/// creating cyan, restarting or degraded yellow, failed or crashloopbackoff
/// red, stopped or stopping muted, anything else secondary text.
pub fn status_color_of_lower(lower: &str) -> (c: u8)
    ensures
        c == status_code_of_lower(lower@),
{
    proof {
        reveal_strlit("running");
        reveal_strlit("pending");
        reveal_strlit("creating");
        reveal_strlit("restarting");
        reveal_strlit("degraded");
        reveal_strlit("failed");
        reveal_strlit("crashloopbackoff");
        reveal_strlit("stopped");
        reveal_strlit("stopping");
    }
    if eq_str(lower, "running") {
        GREEN
    } else if eq_str(lower, "pending") || eq_str(lower, "creating") {
        CYAN
    } else if eq_str(lower, "restarting") || eq_str(lower, "degraded") {
        YELLOW
    } else if eq_str(lower, "failed") || eq_str(lower, "crashloopbackoff") {
        RED
    } else if eq_str(lower, "stopped") || eq_str(lower, "stopping") {
        TEXT_MUTED
    } else {
        TEXT_SECONDARY
    }
}

/// The colour for a status string (case-insensitive).
pub fn status_style(status: &str) -> (c: u8)
    ensures
        c == status_code(status@),
        is_ascii_str(status@) ==> c == status_code_of_lower(ascii_lowered(status@)),
{
    let lower = to_lowercase(status);
    status_color_of_lower(lower.as_str())
}

/// The text of a status dot: `● ` and the lower-cased status.
pub open spec fn status_dot_text(status: Seq<char>) -> Seq<char> {
    seq!['●', ' '] + unicode_lower(status)
}

/// `"● {status}"`, lower-cased and painted in the status colour.
pub fn status_dot(status: &str) -> (r: String)
    ensures
        painted(Some(status_code(status@)), status_dot_text(status@), r@),
        is_ascii_str(status@) ==> status_code(status@) == status_code_of_lower(ascii_lowered(status@))
            && status_dot_text(status@) == seq!['●', ' '] + ascii_lowered(status@),
{
    let code = status_style(status);
    let lower = to_lowercase(status);
    let text = concat2("● ", lower.as_str());
    proof {
        reveal_strlit("● ");
        assert("● "@ =~= seq!['●', ' ']);
    }
    paint(Some(code), text.as_str())
}

} // verus!
