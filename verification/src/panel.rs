//! Boxed terminal panels: a title line (with optional subtitle and count),
//! then a table, key/value pairs or steps, then an optional footer.
//!
//! A panel is laid out as a list of [`Segment`]s (text with an optional
//! colour); painting the segments gives the string printed on a terminal.
//! Widths are measured in UTF-8 bytes of the text with ANSI escape codes
//! stripped.
use vstd::prelude::*;
use crate::text::{
    byte_len, char_width, concat2, concat3, eq_ignore_ascii_case, eq_ignore_ascii_case_str, owned, pad_left, pad_left_str,
    pad_right, pad_right_str, repeat, repeat_str, spaces, spaces_str, str_len, to_uppercase, unicode_upper,
};
use crate::config::opt_view;
use crate::style::{
    ansi_stripped, paint, painted, status_code, status_dot_text, status_style, strip_ansi_codes, ACCENT,
    BORDER, BORDER_SUBTLE, TEXT_SECONDARY,
};

verus! {

// ---------------------------------------------------------------------------
// Segments
// ---------------------------------------------------------------------------

/// The model of a segment: its colour and its text.
pub type SegView = (Option<u8>, Seq<char>);

/// A run of text printed in one colour (or plain).
#[derive(Debug)]
pub struct Segment {
    pub color: Option<u8>,
    pub text: String,
}

impl View for Segment {
    type V = SegView;

    open spec fn view(&self) -> SegView {
        (self.color, self.text@)
    }
}

pub open spec fn segs_view(v: Seq<Segment>) -> Seq<SegView> {
    v.map_values(|s: Segment| s@)
}

pub open spec fn plain(t: Seq<char>) -> SegView {
    (None, t)
}

pub open spec fn tinted(c: u8, t: Seq<char>) -> SegView {
    (Some(c), t)
}

/// `a - b`, or 0 when `b > a` (`usize::saturating_sub`).
pub open spec fn sat_sub(a: nat, b: nat) -> nat {
    if a >= b {
        (a - b) as nat
    } else {
        0
    }
}

pub(crate) fn push_seg(v: &mut Vec<Segment>, color: Option<u8>, text: String)
    ensures
        segs_view(final(v)@) == segs_view(old(v)@).push((color, text@)),
{
    let ghost before = segs_view(v@);
    v.push(Segment { color, text });
    assert(segs_view(v@) =~= before.push((color, text@)));
}

pub(crate) fn append_segs(v: &mut Vec<Segment>, w: Vec<Segment>)
    ensures
        segs_view(final(v)@) == segs_view(old(v)@) + segs_view(w@),
{
    let ghost before = v@;
    let ghost wv = w@;
    let mut w = w;
    v.append(&mut w);
    assert(v@ == before + wv);
    assert(segs_view(v@) =~= segs_view(before) + segs_view(wv));
}

// ---------------------------------------------------------------------------
// The model of a panel
// ---------------------------------------------------------------------------

/// The model of a panel's body.
pub enum ContentView {
    Nothing,
    Table(Seq<Seq<char>>, Seq<Seq<Seq<char>>>),
    Kv(Seq<(Seq<char>, Seq<char>)>),
    Steps(Seq<(Seq<char>, Seq<char>, Seq<char>)>),
}

/// The model of a [`Panel`].
pub struct PanelView {
    pub title: Seq<char>,
    pub count: Option<Seq<char>>,
    pub subtitle: Option<Seq<char>>,
    pub content: ContentView,
    pub footer_left: Option<Seq<char>>,
    pub footer_right: Option<Seq<char>>,
}

pub open spec fn or_empty(o: Option<Seq<char>>) -> Seq<char> {
    match o {
        Some(s) => s,
        None => seq![],
    }
}

/// A horizontal border: `l`, `inner` times `─`, `r`, newline.
pub open spec fn rule(inner: nat, l: char, r: char) -> Seq<SegView> {
    seq![tinted(BORDER, seq![l]), tinted(BORDER, repeat(seq!['─'], inner)), tinted(BORDER, seq![r]), plain(seq!['\n'])]
}

/// A line between two vertical borders.
pub open spec fn boxed(body: Seq<SegView>) -> Seq<SegView> {
    seq![tinted(BORDER, seq!['│'])] + body + seq![tinted(BORDER, seq!['│']), plain(seq!['\n'])]
}

/// The width that the title line takes before its padding.
pub open spec fn title_len(p: PanelView) -> nat {
    byte_len(ansi_stripped(p.title)) + 1 + match p.subtitle {
        Some(s) => byte_len(s) + 1,
        None => 0,
    }
}

/// The title line: title, optional subtitle, and the count right-aligned.
pub open spec fn header_line(p: PanelView, inner: nat) -> Seq<SegView> {
    let right = or_empty(p.count);
    let tl = title_len(p);
    let head = seq![plain(seq![' ']), tinted(ACCENT, p.title)] + match p.subtitle {
        Some(s) => seq![plain(seq![' ']), tinted(TEXT_SECONDARY, s)],
        None => seq![],
    };
    let tail = if right.len() == 0 {
        seq![plain(spaces(sat_sub(inner, tl + 1)))]
    } else {
        let pad = if inner > tl + byte_len(right) + 1 {
            (inner - tl - byte_len(right) - 1) as nat
        } else {
            1
        };
        seq![plain(spaces(pad)), tinted(TEXT_SECONDARY, right)]
    };
    boxed(head + tail)
}

/// One key/value line: the key right-aligned in 16 columns.
pub open spec fn kv_line(k: Seq<char>, v: Seq<char>, inner: nat) -> Seq<SegView> {
    let visible = 16 + 2 + byte_len(ansi_stripped(v));
    boxed(
        seq![
            plain(seq![' ']),
            tinted(TEXT_SECONDARY, pad_left(k, 16)),
            plain(seq![' ', ' '] + v),
            plain(spaces(sat_sub(inner, visible + 2))),
        ],
    )
}

pub open spec fn kv_lines(pairs: Seq<(Seq<char>, Seq<char>)>, inner: nat) -> Seq<SegView>
    decreases pairs.len(),
{
    if pairs.len() == 0 {
        seq![]
    } else {
        kv_lines(pairs.drop_last(), inner) + kv_line(pairs.last().0, pairs.last().1, inner)
    }
}

/// One step line: icon, label, description.
pub open spec fn step_line(icon: Seq<char>, label: Seq<char>, desc: Seq<char>, inner: nat) -> Seq<SegView> {
    let visible = 1 + byte_len(ansi_stripped(icon)) + 1 + byte_len(label) + 2 + byte_len(desc);
    boxed(
        seq![
            plain(seq![' '] + icon + seq![' ']),
            tinted(TEXT_SECONDARY, label),
            plain(seq![' ', ' '] + desc),
            plain(spaces(sat_sub(inner, visible + 1))),
        ],
    )
}

pub open spec fn step_lines(steps: Seq<(Seq<char>, Seq<char>, Seq<char>)>, inner: nat) -> Seq<SegView>
    decreases steps.len(),
{
    if steps.len() == 0 {
        seq![]
    } else {
        step_lines(steps.drop_last(), inner) + step_line(steps.last().0, steps.last().1, steps.last().2, inner)
    }
}

/// The footer: a separator and a line with the left and right texts.
pub open spec fn footer_lines(p: PanelView, inner: nat) -> Seq<SegView> {
    if p.footer_left is Some || p.footer_right is Some {
        let fl = or_empty(p.footer_left);
        let fr = or_empty(p.footer_right);
        let fpad = sat_sub(inner, byte_len(ansi_stripped(fl)) + byte_len(ansi_stripped(fr)) + 2);
        rule(inner, '├', '┤') + boxed(
            seq![plain(seq![' ']), plain(fl), plain(spaces(fpad)), plain(fr), plain(seq![' '])],
        )
    } else {
        seq![]
    }
}

// --- tables ---

/// Width of column `i` over the header and the first `n` rows: the widest
/// of the header and the cells (escape codes stripped), in bytes.
pub open spec fn col_width(headers: Seq<Seq<char>>, rows: Seq<Seq<Seq<char>>>, i: int, n: nat) -> nat
    decreases n,
{
    if n == 0 || n > rows.len() {
        byte_len(headers[i])
    } else {
        let prev = col_width(headers, rows, i, (n - 1) as nat);
        let cell = if i < rows[n - 1].len() {
            byte_len(ansi_stripped(rows[n - 1][i]))
        } else {
            0
        };
        if cell > prev {
            cell
        } else {
            prev
        }
    }
}

/// The width of every column.
pub open spec fn col_widths(headers: Seq<Seq<char>>, rows: Seq<Seq<Seq<char>>>) -> Seq<nat> {
    Seq::new(headers.len(), |i: int| col_width(headers, rows, i, rows.len()))
}

pub open spec fn sum(s: Seq<nat>) -> nat
    decreases s.len(),
{
    if s.len() == 0 {
        0
    } else {
        sum(s.drop_last()) + s.last()
    }
}

/// Parts joined by two spaces.
pub open spec fn join_parts(ps: Seq<Seq<SegView>>) -> Seq<SegView>
    decreases ps.len(),
{
    if ps.len() == 0 {
        seq![]
    } else if ps.len() == 1 {
        ps[0]
    } else {
        join_parts(ps.drop_last()) + seq![plain(seq![' ', ' '])] + ps.last()
    }
}

/// The column separators' width.
pub open spec fn gaps(cols: nat) -> nat {
    sat_sub(cols, 1) * 2
}

/// The header row: upper-cased names, left-aligned in their columns.
pub open spec fn table_header(headers: Seq<Seq<char>>, ws: Seq<nat>, inner: nat) -> Seq<SegView> {
    let vis = sum(ws) + gaps(headers.len());
    boxed(seq![plain(seq![' '])] + join_parts(header_parts(headers, ws)) + seq![plain(spaces(sat_sub(inner, vis + 2)))])
}

/// The header cells: each name upper-cased and padded to its column.
pub open spec fn header_parts(headers: Seq<Seq<char>>, ws: Seq<nat>) -> Seq<Seq<SegView>> {
    Seq::new(headers.len(), |i: int| seq![tinted(TEXT_SECONDARY, pad_right(unicode_upper(headers[i]), ws[i]))])
}

/// The thin line between rows.
pub open spec fn row_sep(inner: nat) -> Seq<SegView> {
    boxed(seq![plain(seq![' ']), tinted(BORDER_SUBTLE, repeat(seq!['─'], sat_sub(inner, 2)))])
}

/// Column `i` holds statuses.
pub open spec fn is_status_col(headers: Seq<Seq<char>>, i: int) -> bool {
    0 <= i < headers.len() && eq_ignore_ascii_case(headers[i], "status"@)
}

/// A cell's column width (a cell past the last column counts its own bytes).
pub open spec fn cell_width(ws: Seq<nat>, cell: Seq<char>, i: int) -> nat {
    if 0 <= i < ws.len() {
        ws[i]
    } else {
        byte_len(cell)
    }
}

/// A cell and its padding; status cells become a coloured status dot.
pub open spec fn cell_parts(headers: Seq<Seq<char>>, ws: Seq<nat>, cell: Seq<char>, i: int) -> Seq<SegView> {
    let stripped = ansi_stripped(cell);
    let pad = spaces(sat_sub(cell_width(ws, cell, i), byte_len(stripped)));
    if is_status_col(headers, i) {
        seq![tinted(status_code(stripped), status_dot_text(stripped)), plain(pad)]
    } else {
        seq![plain(cell), plain(pad)]
    }
}

/// The width that a cell is counted with when padding its row.
pub open spec fn cell_visible(headers: Seq<Seq<char>>, ws: Seq<nat>, cell: Seq<char>, i: int) -> nat {
    let w = if 0 <= i < ws.len() {
        ws[i]
    } else {
        0
    };
    if is_status_col(headers, i) {
        let dlen = byte_len(ansi_stripped(status_dot_text(ansi_stripped(cell))));
        if dlen > w {
            dlen
        } else {
            w
        }
    } else {
        w
    }
}

/// A data row.
pub open spec fn row_line(headers: Seq<Seq<char>>, ws: Seq<nat>, row: Seq<Seq<char>>, inner: nat) -> Seq<SegView> {
    let vis = sum(row_visible(headers, ws, row)) + gaps(headers.len());
    boxed(seq![plain(seq![' '])] + join_parts(row_parts(headers, ws, row)) + seq![plain(spaces(sat_sub(inner, vis + 2)))])
}

/// The cells of a data row with their padding.
pub open spec fn row_parts(headers: Seq<Seq<char>>, ws: Seq<nat>, row: Seq<Seq<char>>) -> Seq<Seq<SegView>> {
    Seq::new(row.len(), |i: int| cell_parts(headers, ws, row[i], i))
}

/// The widths that a data row's cells are counted with.
pub open spec fn row_visible(headers: Seq<Seq<char>>, ws: Seq<nat>, row: Seq<Seq<char>>) -> Seq<nat> {
    Seq::new(row.len(), |i: int| cell_visible(headers, ws, row[i], i))
}

/// The first `n` data rows, with a thin line between consecutive rows.
pub open spec fn row_lines(
    headers: Seq<Seq<char>>,
    ws: Seq<nat>,
    rows: Seq<Seq<Seq<char>>>,
    inner: nat,
    n: nat,
) -> Seq<SegView>
    decreases n,
{
    if n == 0 || n > rows.len() {
        seq![]
    } else if n == 1 {
        row_line(headers, ws, rows[0], inner)
    } else {
        row_lines(headers, ws, rows, inner, (n - 1) as nat) + row_sep(inner) + row_line(headers, ws, rows[n - 1], inner)
    }
}

/// A table: header row, a thin line, then the data rows.
pub open spec fn table_lines(headers: Seq<Seq<char>>, rows: Seq<Seq<Seq<char>>>, inner: nat) -> Seq<SegView> {
    let ws = col_widths(headers, rows);
    table_header(headers, ws, inner) + row_sep(inner) + row_lines(headers, ws, rows, inner, rows.len())
}

/// The body of a panel.
pub open spec fn content_lines(c: ContentView, inner: nat) -> Seq<SegView> {
    match c {
        ContentView::Nothing => boxed(seq![plain(spaces(inner))]),
        ContentView::Kv(pairs) => kv_lines(pairs, inner),
        ContentView::Steps(steps) => step_lines(steps, inner),
        ContentView::Table(headers, rows) => table_lines(headers, rows, inner),
    }
}

/// The panel laid out for a terminal `width` columns wide (at least 30).
pub open spec fn layout(p: PanelView, width: nat) -> Seq<SegView> {
    let w = if width > 30 {
        width
    } else {
        30
    };
    let inner = (w - 2) as nat;
    rule(inner, '┌', '┐') + header_line(p, inner) + rule(inner, '├', '┤') + content_lines(p.content, inner)
        + footer_lines(p, inner) + rule(inner, '└', '┘')
}

// ---------------------------------------------------------------------------
// Building the segments
// ---------------------------------------------------------------------------

fn one(c: char) -> (r: String)
    ensures
        r@ == seq![c],
{
    let mut r = String::new();
    crate::text::push_char(&mut r, c);
    r
}

fn rule_segs(inner: usize, l: char, r: char) -> (v: Vec<Segment>)
    ensures
        segs_view(v@) == rule(inner as nat, l, r),
{
    let mut v: Vec<Segment> = Vec::new();
    push_seg(&mut v, Some(BORDER), one(l));
    proof {
        reveal_strlit("─");
        assert("─"@ =~= seq!['─']);
    }
    push_seg(&mut v, Some(BORDER), repeat_str("─", inner));
    push_seg(&mut v, Some(BORDER), one(r));
    push_seg(&mut v, None, one('\n'));
    assert(segs_view(v@) =~= rule(inner as nat, l, r));
    v
}

fn boxed_segs(body: Vec<Segment>) -> (v: Vec<Segment>)
    ensures
        segs_view(v@) == boxed(segs_view(body@)),
{
    let mut v: Vec<Segment> = Vec::new();
    push_seg(&mut v, Some(BORDER), one('│'));
    append_segs(&mut v, body);
    push_seg(&mut v, Some(BORDER), one('│'));
    push_seg(&mut v, None, one('\n'));
    assert(segs_view(v@) =~= boxed(segs_view(body@)));
    v
}

/// `a - b`, or 0 when `b > a`, on 128-bit widths.
fn sub_or_zero(a: u128, b: u128) -> (r: u128)
    ensures
        r == sat_sub(a as nat, b as nat),
{
    if a >= b {
        a - b
    } else {
        0
    }
}

/// Spaces for a pad that cannot exceed a `usize` bound.
fn pad_spaces(n: u128, bound: usize) -> (r: String)
    requires
        n <= bound,
    ensures
        r@ == spaces(n as nat),
{
    spaces_str(n as usize)
}


// ---------------------------------------------------------------------------
// The panel
// ---------------------------------------------------------------------------

enum PanelContent {
    Nothing,
    Table { headers: Vec<String>, rows: Vec<Vec<String>> },
    Kv(Vec<(String, String)>),
    Steps(Vec<(String, String, String)>),
}

pub open spec fn strings_view(v: Seq<String>) -> Seq<Seq<char>> {
    v.map_values(|s: String| s@)
}

pub open spec fn rows_view(v: Seq<Vec<String>>) -> Seq<Seq<Seq<char>>> {
    v.map_values(|r: Vec<String>| strings_view(r@))
}

pub open spec fn pairs_view(v: Seq<(String, String)>) -> Seq<(Seq<char>, Seq<char>)> {
    v.map_values(|p: (String, String)| (p.0@, p.1@))
}

pub open spec fn triples_view(v: Seq<(String, String, String)>) -> Seq<(Seq<char>, Seq<char>, Seq<char>)> {
    v.map_values(|t: (String, String, String)| (t.0@, t.1@, t.2@))
}

pub open spec fn strs_view(v: Seq<&str>) -> Seq<Seq<char>> {
    v.map_values(|s: &str| s@)
}

pub open spec fn str_pairs_view(v: Seq<(&str, &str)>) -> Seq<(Seq<char>, Seq<char>)> {
    v.map_values(|p: (&str, &str)| (p.0@, p.1@))
}

pub open spec fn str_triples_view(v: Seq<(&str, &str, &str)>) -> Seq<(Seq<char>, Seq<char>, Seq<char>)> {
    v.map_values(|t: (&str, &str, &str)| (t.0@, t.1@, t.2@))
}

spec fn content_view(c: PanelContent) -> ContentView {
    match c {
        PanelContent::Nothing => ContentView::Nothing,
        PanelContent::Table { headers, rows } => ContentView::Table(strings_view(headers@), rows_view(rows@)),
        PanelContent::Kv(pairs) => ContentView::Kv(pairs_view(pairs@)),
        PanelContent::Steps(steps) => ContentView::Steps(triples_view(steps@)),
    }
}

/// A boxed terminal panel, built step by step and rendered to a string.
pub struct Panel {
    title: String,
    count: Option<String>,
    subtitle: Option<String>,
    content: PanelContent,
    footer_left: Option<String>,
    footer_right: Option<String>,
}

impl View for Panel {
    type V = PanelView;

    closed spec fn view(&self) -> PanelView {
        PanelView {
            title: self.title@,
            count: opt_view(self.count),
            subtitle: opt_view(self.subtitle),
            content: content_view(self.content),
            footer_left: opt_view(self.footer_left),
            footer_right: opt_view(self.footer_right),
        }
    }
}

/// The title line.
fn header_segs(p: &Panel, inner: usize) -> (v: Vec<Segment>)
    requires
        inner >= 1,
    ensures
        segs_view(v@) == header_line(p@, inner as nat),
{
    let title_plain = strip_ansi_codes(p.title.as_str());
    let sub_len: u128 = match &p.subtitle {
        Some(s) => str_len(s.as_str()) as u128 + 1,
        None => 0,
    };
    let tl: u128 = str_len(title_plain.as_str()) as u128 + 1 + sub_len;
    proof {
        reveal_strlit("");
    }
    let right: &str = match &p.count {
        Some(c) => c.as_str(),
        None => "",
    };
    let right_len: u128 = str_len(right) as u128;
    let mut body: Vec<Segment> = Vec::new();
    push_seg(&mut body, None, one(' '));
    push_seg(&mut body, Some(ACCENT), owned(p.title.as_str()));
    match &p.subtitle {
        Some(s) => {
            push_seg(&mut body, None, one(' '));
            push_seg(&mut body, Some(TEXT_SECONDARY), owned(s.as_str()));
        },
        None => {},
    }
    let ghost head = segs_view(body@);
    if right_len == 0 {
        let n = sub_or_zero(inner as u128, tl + 1);
        push_seg(&mut body, None, pad_spaces(n, inner));
    } else {
        let pad: u128 = if inner as u128 > tl + right_len + 1 {
            inner as u128 - tl - right_len - 1
        } else {
            1
        };
        push_seg(&mut body, None, pad_spaces(pad, inner));
        push_seg(&mut body, Some(TEXT_SECONDARY), owned(right));
    }
    proof {
        assert(right@.len() == 0 <==> right_len == 0) by {
            if right@.len() > 0 {
                assert(byte_len(right@) == char_width(right@[0]) + byte_len(right@.drop_first()));
            }
        }
    }
    let v = boxed_segs(body);
    assert(segs_view(v@) =~= header_line(p@, inner as nat));
    v
}

/// One key/value line.
fn kv_segs(k: &str, val: &str, inner: usize) -> (v: Vec<Segment>)
    ensures
        segs_view(v@) == kv_line(k@, val@, inner as nat),
{
    let stripped = strip_ansi_codes(val);
    let visible: u128 = 16 + 2 + str_len(stripped.as_str()) as u128;
    let mut body: Vec<Segment> = Vec::new();
    push_seg(&mut body, None, one(' '));
    push_seg(&mut body, Some(TEXT_SECONDARY), pad_left_str(k, 16));
    proof {
        reveal_strlit("  ");
        assert("  "@ =~= seq![' ', ' ']);
    }
    push_seg(&mut body, None, concat2("  ", val));
    let n = sub_or_zero(inner as u128, visible + 2);
    push_seg(&mut body, None, pad_spaces(n, inner));
    let v = boxed_segs(body);
    assert(segs_view(v@) =~= kv_line(k@, val@, inner as nat));
    v
}

/// One step line.
fn step_segs(icon: &str, label: &str, desc: &str, inner: usize) -> (v: Vec<Segment>)
    ensures
        segs_view(v@) == step_line(icon@, label@, desc@, inner as nat),
{
    let icon_plain = strip_ansi_codes(icon);
    let visible: u128 = 1 + str_len(icon_plain.as_str()) as u128 + 1 + str_len(label) as u128 + 2
        + str_len(desc) as u128;
    let mut body: Vec<Segment> = Vec::new();
    proof {
        reveal_strlit(" ");
        reveal_strlit("  ");
        assert(" "@ =~= seq![' ']);
        assert("  "@ =~= seq![' ', ' ']);
    }
    push_seg(&mut body, None, concat3(" ", icon, " "));
    push_seg(&mut body, Some(TEXT_SECONDARY), owned(label));
    push_seg(&mut body, None, concat2("  ", desc));
    let n = sub_or_zero(inner as u128, visible + 1);
    push_seg(&mut body, None, pad_spaces(n, inner));
    let v = boxed_segs(body);
    assert(segs_view(v@) =~= step_line(icon@, label@, desc@, inner as nat));
    v
}

/// The footer separator and line, when the panel has a footer.
fn footer_segs(p: &Panel, inner: usize) -> (v: Vec<Segment>)
    ensures
        segs_view(v@) == footer_lines(p@, inner as nat),
{
    if p.footer_left.is_none() && p.footer_right.is_none() {
        let v: Vec<Segment> = Vec::new();
        assert(segs_view(v@) =~= footer_lines(p@, inner as nat));
        return v;
    }
    proof {
        reveal_strlit("");
    }
    let fl: &str = match &p.footer_left {
        Some(s) => s.as_str(),
        None => "",
    };
    let fr: &str = match &p.footer_right {
        Some(s) => s.as_str(),
        None => "",
    };
    let fl_plain = strip_ansi_codes(fl);
    let fr_plain = strip_ansi_codes(fr);
    let n = sub_or_zero(inner as u128, str_len(fl_plain.as_str()) as u128 + str_len(fr_plain.as_str()) as u128 + 2);
    let mut body: Vec<Segment> = Vec::new();
    push_seg(&mut body, None, one(' '));
    push_seg(&mut body, None, owned(fl));
    push_seg(&mut body, None, pad_spaces(n, inner));
    push_seg(&mut body, None, owned(fr));
    push_seg(&mut body, None, one(' '));
    let mut v = rule_segs(inner, '├', '┤');
    let line = boxed_segs(body);
    append_segs(&mut v, line);
    assert(p@.footer_left is Some || p@.footer_right is Some);
    assert(fl@ == or_empty(p@.footer_left));
    assert(fr@ == or_empty(p@.footer_right));
    assert(segs_view(v@) =~= footer_lines(p@, inner as nat));
    v
}


// --- tables ---

pub open spec fn nat_seq(v: Seq<usize>) -> Seq<nat> {
    v.map_values(|x: usize| x as nat)
}

pub(crate) proof fn lemma_join_take(ps: Seq<Seq<SegView>>, i: int)
    requires
        0 <= i < ps.len(),
    ensures
        join_parts(ps.take(i + 1)) == if i == 0 {
            ps[0]
        } else {
            join_parts(ps.take(i)) + seq![plain(seq![' ', ' '])] + ps[i]
        },
{
    assert(ps.take(i + 1).drop_last() =~= ps.take(i));
    assert(ps.take(i + 1).last() == ps[i]);
}

proof fn lemma_sum_take(s: Seq<nat>, i: int)
    requires
        0 <= i < s.len(),
    ensures
        sum(s.take(i + 1)) == sum(s.take(i)) + s[i],
{
    assert(s.take(i + 1).drop_last() =~= s.take(i));
}

pub(crate) fn two_spaces() -> (r: String)
    ensures
        r@ == seq![' ', ' '],
{
    proof {
        reveal_strlit("  ");
        assert("  "@ =~= seq![' ', ' ']);
    }
    owned("  ")
}

/// The width of each column: the widest of its header and its cells.
fn column_widths(headers: &Vec<String>, rows: &Vec<Vec<String>>) -> (ws: Vec<usize>)
    ensures
        nat_seq(ws@) == col_widths(strings_view(headers@), rows_view(rows@)),
        forall|i: int| 0 <= i < ws.len() ==> ws[i] <= isize::MAX,
{
    let ghost hv = strings_view(headers@);
    let ghost rv = rows_view(rows@);
    let cols = headers.len();
    let mut ws: Vec<usize> = Vec::new();
    let mut i: usize = 0;
    while i < cols
        invariant
            cols == headers.len(),
            hv == strings_view(headers@),
            i <= cols,
            ws.len() == i,
            forall|j: int| 0 <= j < i ==> ws[j] == col_width(hv, rv, j, 0) && ws[j] <= isize::MAX,
        decreases cols - i,
    {
        ws.push(str_len(headers[i].as_str()));
        i += 1;
    }
    let mut n: usize = 0;
    while n < rows.len()
        invariant
            cols == headers.len(),
            hv == strings_view(headers@),
            rv == rows_view(rows@),
            ws.len() == cols,
            n <= rows.len(),
            forall|j: int| 0 <= j < cols ==> ws[j] == col_width(hv, rv, j, n as nat) && ws[j] <= isize::MAX,
        decreases rows.len() - n,
    {
        let row = &rows[n];
        let mut j: usize = 0;
        while j < row.len() && j < cols
            invariant
                cols == headers.len(),
                hv == strings_view(headers@),
                rv == rows_view(rows@),
                row == rows@[n as int],
                n < rows.len(),
                ws.len() == cols,
                j <= cols,
                j <= row.len(),
                forall|k: int| 0 <= k < j ==> ws[k] == col_width(hv, rv, k, (n + 1) as nat) && ws[k] <= isize::MAX,
                forall|k: int| j <= k < cols ==> ws[k] == col_width(hv, rv, k, n as nat) && ws[k] <= isize::MAX,
            decreases cols - j,
        {
            let stripped = strip_ansi_codes(row[j].as_str());
            let l = str_len(stripped.as_str());
            proof {
                assert(rv[n as int][j as int] == row[j as int]@);
            }
            if l > ws[j] {
                ws.set(j, l);
            }
            j += 1;
        }
        proof {
            assert forall|k: int| j <= k < cols implies ws[k] == col_width(hv, rv, k, (n + 1) as nat) by {
                assert(rv[n as int].len() == row.len());
            }
        }
        n += 1;
    }
    proof {
        assert(nat_seq(ws@) =~= col_widths(hv, rv));
    }
    ws
}

/// The header row of a table.
fn table_header_segs(headers: &Vec<String>, ws: &Vec<usize>, inner: usize) -> (v: Vec<Segment>)
    requires
        ws.len() == headers.len(),
        forall|i: int| 0 <= i < ws.len() ==> ws[i] <= isize::MAX,
    ensures
        segs_view(v@) == table_header(strings_view(headers@), nat_seq(ws@), inner as nat),
{
    let ghost hv = strings_view(headers@);
    let ghost wv = nat_seq(ws@);
    let ghost ps = header_parts(hv, wv);
    let mut line: Vec<Segment> = Vec::new();
    let mut total: u128 = 0;
    let mut i: usize = 0;
    while i < headers.len()
        invariant
            ws.len() == headers.len(),
            forall|k: int| 0 <= k < ws.len() ==> ws[k] <= isize::MAX,
            hv == strings_view(headers@),
            wv == nat_seq(ws@),
            ps == header_parts(hv, wv),
            i <= headers.len(),
            segs_view(line@) == join_parts(ps.take(i as int)),
            total == sum(wv.take(i as int)),
            total <= i * 0x8000_0000_0000_0000u128,
        decreases headers.len() - i,
    {
        if i > 0 {
            push_seg(&mut line, None, two_spaces());
        }
        let up = to_uppercase(headers[i].as_str());
        push_seg(&mut line, Some(TEXT_SECONDARY), pad_right_str(up.as_str(), ws[i]));
        total = total + ws[i] as u128;
        proof {
            lemma_join_take(ps, i as int);
            lemma_sum_take(wv, i as int);
            assert(segs_view(line@) =~= join_parts(ps.take(i + 1)));
        }
        i += 1;
    }
    proof {
        assert(ps.take(headers.len() as int) =~= ps);
        assert(wv.take(headers.len() as int) =~= wv);
    }
    let cols = headers.len();
    let g: u128 = if cols >= 1 {
        (cols as u128 - 1) * 2
    } else {
        0
    };
    let n = sub_or_zero(inner as u128, total + g + 2);
    let mut body: Vec<Segment> = Vec::new();
    push_seg(&mut body, None, one(' '));
    append_segs(&mut body, line);
    push_seg(&mut body, None, pad_spaces(n, inner));
    let v = boxed_segs(body);
    assert(segs_view(v@) =~= table_header(hv, wv, inner as nat));
    v
}

/// The thin line between table rows.
fn row_sep_segs(inner: usize) -> (v: Vec<Segment>)
    ensures
        segs_view(v@) == row_sep(inner as nat),
{
    proof {
        reveal_strlit("─");
        assert("─"@ =~= seq!['─']);
    }
    let n: usize = if inner >= 2 {
        inner - 2
    } else {
        0
    };
    let mut body: Vec<Segment> = Vec::new();
    push_seg(&mut body, None, one(' '));
    push_seg(&mut body, Some(BORDER_SUBTLE), repeat_str("─", n));
    let v = boxed_segs(body);
    assert(segs_view(v@) =~= row_sep(inner as nat));
    v
}

/// One cell of a data row and the width it is counted with.
fn cell_segs(headers: &Vec<String>, ws: &Vec<usize>, cell: &str, i: usize) -> (r: (Vec<Segment>, u128))
    requires
        ws.len() == headers.len(),
        forall|k: int| 0 <= k < ws.len() ==> ws[k] <= isize::MAX,
    ensures
        segs_view(r.0@) == cell_parts(strings_view(headers@), nat_seq(ws@), cell@, i as int),
        r.1 == cell_visible(strings_view(headers@), nat_seq(ws@), cell@, i as int),
        r.1 <= isize::MAX,
{
    let ghost hv = strings_view(headers@);
    let ghost wv = nat_seq(ws@);
    let stripped = strip_ansi_codes(cell);
    let sl = str_len(stripped.as_str());
    let w: usize = if i < ws.len() {
        ws[i]
    } else {
        str_len(cell)
    };
    let pad = spaces_str(if w >= sl {
        w - sl
    } else {
        0
    });
    proof {
        reveal_strlit("status");
        reveal_strlit("● ");
        assert("● "@ =~= seq!['●', ' ']);
    }
    let is_status = i < headers.len() && eq_ignore_ascii_case_str(headers[i].as_str(), "status");
    let mut v: Vec<Segment> = Vec::new();
    let vis: u128;
    if is_status {
        let code = status_style(stripped.as_str());
        let lower = crate::text::to_lowercase(stripped.as_str());
        let text = concat2("● ", lower.as_str());
        let dot_plain = strip_ansi_codes(text.as_str());
        let dlen = str_len(dot_plain.as_str());
        vis = if dlen > ws[i] {
            dlen as u128
        } else {
            ws[i] as u128
        };
        push_seg(&mut v, Some(code), text);
    } else {
        push_seg(&mut v, None, owned(cell));
        vis = if i < ws.len() {
            ws[i] as u128
        } else {
            0
        };
    }
    push_seg(&mut v, None, pad);
    proof {
        assert(is_status == is_status_col(hv, i as int));
    }
    assert(segs_view(v@) =~= cell_parts(hv, wv, cell@, i as int));
    (v, vis)
}

/// A data row of a table.
fn row_segs(headers: &Vec<String>, ws: &Vec<usize>, row: &Vec<String>, inner: usize) -> (v: Vec<Segment>)
    requires
        ws.len() == headers.len(),
        forall|i: int| 0 <= i < ws.len() ==> ws[i] <= isize::MAX,
    ensures
        segs_view(v@) == row_line(strings_view(headers@), nat_seq(ws@), strings_view(row@), inner as nat),
{
    let ghost hv = strings_view(headers@);
    let ghost wv = nat_seq(ws@);
    let ghost rw = strings_view(row@);
    let ghost ps = row_parts(hv, wv, rw);
    let ghost vs = row_visible(hv, wv, rw);
    let mut line: Vec<Segment> = Vec::new();
    let mut total: u128 = 0;
    let mut i: usize = 0;
    while i < row.len()
        invariant
            ws.len() == headers.len(),
            forall|k: int| 0 <= k < ws.len() ==> ws[k] <= isize::MAX,
            hv == strings_view(headers@),
            wv == nat_seq(ws@),
            rw == strings_view(row@),
            ps == row_parts(hv, wv, rw),
            vs == row_visible(hv, wv, rw),
            i <= row.len(),
            segs_view(line@) == join_parts(ps.take(i as int)),
            total == sum(vs.take(i as int)),
            total <= i * 0x8000_0000_0000_0000u128,
        decreases row.len() - i,
    {
        if i > 0 {
            push_seg(&mut line, None, two_spaces());
        }
        let (part, vis) = cell_segs(headers, ws, row[i].as_str(), i);
        append_segs(&mut line, part);
        total = total + vis;
        proof {
            lemma_join_take(ps, i as int);
            lemma_sum_take(vs, i as int);
            assert(segs_view(line@) =~= join_parts(ps.take(i + 1)));
        }
        i += 1;
    }
    proof {
        assert(ps.take(row.len() as int) =~= ps);
        assert(vs.take(row.len() as int) =~= vs);
    }
    let cols = headers.len();
    let g: u128 = if cols >= 1 {
        (cols as u128 - 1) * 2
    } else {
        0
    };
    let n = sub_or_zero(inner as u128, total + g + 2);
    let mut body: Vec<Segment> = Vec::new();
    push_seg(&mut body, None, one(' '));
    append_segs(&mut body, line);
    push_seg(&mut body, None, pad_spaces(n, inner));
    let v = boxed_segs(body);
    assert(segs_view(v@) =~= row_line(hv, wv, rw, inner as nat));
    v
}

/// A table: its header row, a thin line, and the data rows.
fn table_segs(headers: &Vec<String>, rows: &Vec<Vec<String>>, inner: usize) -> (v: Vec<Segment>)
    ensures
        segs_view(v@) == table_lines(strings_view(headers@), rows_view(rows@), inner as nat),
{
    let ghost hv = strings_view(headers@);
    let ghost rv = rows_view(rows@);
    let ws = column_widths(headers, rows);
    let ghost wv = nat_seq(ws@);
    let mut v = table_header_segs(headers, &ws, inner);
    let sep = row_sep_segs(inner);
    append_segs(&mut v, sep);
    let ghost head = segs_view(v@);
    let mut r: usize = 0;
    while r < rows.len()
        invariant
            ws.len() == headers.len(),
            forall|k: int| 0 <= k < ws.len() ==> ws[k] <= isize::MAX,
            hv == strings_view(headers@),
            rv == rows_view(rows@),
            wv == nat_seq(ws@),
            r <= rows.len(),
            segs_view(v@) == head + row_lines(hv, wv, rv, inner as nat, r as nat),
        decreases rows.len() - r,
    {
        if r > 0 {
            let sep = row_sep_segs(inner);
            append_segs(&mut v, sep);
        }
        let line = row_segs(headers, &ws, &rows[r], inner);
        append_segs(&mut v, line);
        proof {
            assert(rv[r as int] == strings_view(rows@[r as int]@));
        }
        assert(segs_view(v@) =~= head + row_lines(hv, wv, rv, inner as nat, (r + 1) as nat));
        r += 1;
    }
    v
}


// --- the whole panel ---

pub(crate) proof fn lemma_lines_take<A>(s: Seq<A>, i: int)
    requires
        0 <= i < s.len(),
    ensures
        s.take(i + 1).drop_last() == s.take(i),
        s.take(i + 1).last() == s[i],
{
    assert(s.take(i + 1).drop_last() =~= s.take(i));
}

/// The body of a panel.
fn content_segs(c: &PanelContent, inner: usize) -> (v: Vec<Segment>)
    ensures
        segs_view(v@) == content_lines(content_view(*c), inner as nat),
{
    match c {
        PanelContent::Nothing => {
            let mut body: Vec<Segment> = Vec::new();
            push_seg(&mut body, None, spaces_str(inner));
            let v = boxed_segs(body);
            assert(segs_view(v@) =~= content_lines(content_view(*c), inner as nat));
            v
        },
        PanelContent::Kv(pairs) => {
            let ghost pv = pairs_view(pairs@);
            let mut v: Vec<Segment> = Vec::new();
            let mut i: usize = 0;
            while i < pairs.len()
                invariant
                    pv == pairs_view(pairs@),
                    i <= pairs.len(),
                    segs_view(v@) == kv_lines(pv.take(i as int), inner as nat),
                decreases pairs.len() - i,
            {
                let line = kv_segs(pairs[i].0.as_str(), pairs[i].1.as_str(), inner);
                append_segs(&mut v, line);
                proof {
                    lemma_lines_take(pv, i as int);
                }
                i += 1;
            }
            proof {
                assert(pv.take(pairs.len() as int) =~= pv);
            }
            v
        },
        PanelContent::Steps(steps) => {
            let ghost sv = triples_view(steps@);
            let mut v: Vec<Segment> = Vec::new();
            let mut i: usize = 0;
            while i < steps.len()
                invariant
                    sv == triples_view(steps@),
                    i <= steps.len(),
                    segs_view(v@) == step_lines(sv.take(i as int), inner as nat),
                decreases steps.len() - i,
            {
                let line = step_segs(steps[i].0.as_str(), steps[i].1.as_str(), steps[i].2.as_str(), inner);
                append_segs(&mut v, line);
                proof {
                    lemma_lines_take(sv, i as int);
                }
                i += 1;
            }
            proof {
                assert(sv.take(steps.len() as int) =~= sv);
            }
            v
        },
        PanelContent::Table { headers, rows } => table_segs(headers, rows, inner),
    }
}

/// `out` is the concatenation of the segments, each painted in its colour.
pub open spec fn rendered(segs: Seq<SegView>, out: Seq<char>) -> bool {
    exists|outs: Seq<Seq<char>>| #[trigger] paints(segs, outs) && out == outs.flatten()
}

/// `outs` holds each segment painted in its colour.
pub open spec fn paints(segs: Seq<SegView>, outs: Seq<Seq<char>>) -> bool {
    &&& outs.len() == segs.len()
    &&& forall|i: int| 0 <= i < segs.len() ==> painted(segs[i].0, segs[i].1, #[trigger] outs[i])
}

/// Paint every segment and join the results.
pub fn paint_segments(v: &Vec<Segment>) -> (r: String)
    ensures
        rendered(segs_view(v@), r@),
{
    let ghost sv = segs_view(v@);
    let ghost mut outs: Seq<Seq<char>> = seq![];
    let mut out = String::new();
    let mut i: usize = 0;
    while i < v.len()
        invariant
            sv == segs_view(v@),
            i <= v.len(),
            outs.len() == i,
            forall|k: int| 0 <= k < i ==> painted(sv[k].0, sv[k].1, #[trigger] outs[k]),
            out@ == outs.flatten(),
        decreases v.len() - i,
    {
        let s = paint(v[i].color, v[i].text.as_str());
        proof {
            outs.lemma_flatten_push(s@);
            outs = outs.push(s@);
        }
        out.append(s.as_str());
        i += 1;
    }
    assert(paints(sv, outs));
    out
}

/// The terminal's size as (rows, columns), when stdout is a terminal
/// (`console::Term::size_checked`). It depends on the terminal, so nothing
/// is promised of it.
#[verifier::external_body]
fn terminal_size() -> (r: Option<(u16, u16)>) {
    console::Term::stdout().size_checked()
}

impl PanelView {
    pub open spec fn with_count(self, c: Seq<char>) -> PanelView {
        PanelView { count: Some(c), ..self }
    }

    pub open spec fn with_subtitle(self, c: Seq<char>) -> PanelView {
        PanelView { subtitle: Some(c), ..self }
    }

    pub open spec fn with_content(self, c: ContentView) -> PanelView {
        PanelView { content: c, ..self }
    }

    pub open spec fn with_footer_left(self, c: Seq<char>) -> PanelView {
        PanelView { footer_left: Some(c), ..self }
    }

    pub open spec fn with_footer_right(self, c: Seq<char>) -> PanelView {
        PanelView { footer_right: Some(c), ..self }
    }
}

/// A panel with only a title.
pub open spec fn titled(title: Seq<char>) -> PanelView {
    PanelView {
        title,
        count: None,
        subtitle: None,
        content: ContentView::Nothing,
        footer_left: None,
        footer_right: None,
    }
}

impl Panel {
    /// A panel with a title and nothing else.
    pub fn new(title: &str) -> (p: Panel)
        ensures
            p@ == titled(title@),
    {
        Panel {
            title: owned(title),
            count: None,
            subtitle: None,
            content: PanelContent::Nothing,
            footer_left: None,
            footer_right: None,
        }
    }

    /// Set the count shown at the right of the title line.
    pub fn count(self, count: &str) -> (p: Panel)
        ensures
            p@ == self@.with_count(count@),
    {
        let mut p = self;
        p.count = Some(owned(count));
        p
    }

    /// Set the subtitle shown after the title.
    pub fn subtitle(self, sub: &str) -> (p: Panel)
        ensures
            p@ == self@.with_subtitle(sub@),
    {
        let mut p = self;
        p.subtitle = Some(owned(sub));
        p
    }

    /// Make the body a table with these column headers and rows.
    pub fn table(self, headers: &[&str], rows: &[Vec<String>]) -> (p: Panel)
        ensures
            p@ == self@.with_content(
                ContentView::Table(strs_view(headers@), rows_view(rows@)),
            ),
    {
        let mut hs: Vec<String> = Vec::new();
        let mut i: usize = 0;
        while i < headers.len()
            invariant
                i <= headers.len(),
                hs.len() == i,
                forall|k: int| 0 <= k < i ==> #[trigger] hs@[k]@ == headers@[k]@,
            decreases headers.len() - i,
        {
            hs.push(owned(headers[i]));
            i += 1;
        }
        let mut rs: Vec<Vec<String>> = Vec::new();
        let mut j: usize = 0;
        while j < rows.len()
            invariant
                j <= rows.len(),
                rs.len() == j,
                forall|k: int| 0 <= k < j ==> strings_view(#[trigger] rs@[k]@) == strings_view(rows@[k]@),
            decreases rows.len() - j,
        {
            let row = &rows[j];
            let mut cells: Vec<String> = Vec::new();
            let mut k: usize = 0;
            while k < row.len()
                invariant
                    k <= row.len(),
                    cells.len() == k,
                    forall|m: int| 0 <= m < k ==> #[trigger] cells@[m]@ == row@[m]@,
                decreases row.len() - k,
            {
                cells.push(owned(row[k].as_str()));
                k += 1;
            }
            assert(strings_view(cells@) =~= strings_view(row@));
            rs.push(cells);
            j += 1;
        }
        assert(strings_view(hs@) =~= strs_view(headers@));
        assert(rows_view(rs@) =~= rows_view(rows@));
        let mut p = self;
        p.content = PanelContent::Table { headers: hs, rows: rs };
        p
    }

    /// Make the body key/value lines.
    pub fn kv(self, pairs: &[(&str, &str)]) -> (p: Panel)
        ensures
            p@ == self@.with_content(ContentView::Kv(str_pairs_view(pairs@))),
    {
        let mut ps: Vec<(String, String)> = Vec::new();
        let mut i: usize = 0;
        while i < pairs.len()
            invariant
                i <= pairs.len(),
                ps.len() == i,
                forall|k: int| 0 <= k < i ==> (#[trigger] ps@[k]).0@ == pairs@[k].0@ && ps@[k].1@ == pairs@[k].1@,
            decreases pairs.len() - i,
        {
            ps.push((owned(pairs[i].0), owned(pairs[i].1)));
            i += 1;
        }
        assert(pairs_view(ps@) =~= str_pairs_view(pairs@));
        let mut p = self;
        p.content = PanelContent::Kv(ps);
        p
    }

    /// Make the body step lines: an icon, a label and a description each.
    pub fn steps(self, steps: &[(&str, &str, &str)]) -> (p: Panel)
        ensures
            p@ == self@.with_content(
                ContentView::Steps(str_triples_view(steps@)),
            ),
    {
        let mut ts: Vec<(String, String, String)> = Vec::new();
        let mut i: usize = 0;
        while i < steps.len()
            invariant
                i <= steps.len(),
                ts.len() == i,
                forall|k: int| 0 <= k < i ==> (#[trigger] ts@[k]).0@ == steps@[k].0@ && ts@[k].1@ == steps@[k].1@ && ts@[k].2@ == steps@[k].2@,
            decreases steps.len() - i,
        {
            ts.push((owned(steps[i].0), owned(steps[i].1), owned(steps[i].2)));
            i += 1;
        }
        assert(triples_view(ts@) =~= str_triples_view(steps@));
        let mut p = self;
        p.content = PanelContent::Steps(ts);
        p
    }

    /// Set the footer's left text.
    pub fn footer_left(self, text: &str) -> (p: Panel)
        ensures
            p@ == self@.with_footer_left(text@),
    {
        let mut p = self;
        p.footer_left = Some(owned(text));
        p
    }

    /// Set the footer's right text.
    pub fn footer_right(self, text: &str) -> (p: Panel)
        ensures
            p@ == self@.with_footer_right(text@),
    {
        let mut p = self;
        p.footer_right = Some(owned(text));
        p
    }

    /// The panel laid out for a terminal `width` columns wide, as segments.
    pub fn segments(&self, width: usize) -> (v: Vec<Segment>)
        ensures
            segs_view(v@) == layout(self@, width as nat),
    {
        let w: usize = if width > 30 {
            width
        } else {
            30
        };
        let inner = w - 2;
        let mut v = rule_segs(inner, '┌', '┐');
        append_segs(&mut v, header_segs(self, inner));
        append_segs(&mut v, rule_segs(inner, '├', '┤'));
        append_segs(&mut v, content_segs(&self.content, inner));
        append_segs(&mut v, footer_segs(self, inner));
        append_segs(&mut v, rule_segs(inner, '└', '┘'));
        v
    }

    /// The panel rendered for a terminal `width` columns wide.
    pub fn render_to_string_with_width(&self, width: usize) -> (r: String)
        ensures
            rendered(layout(self@, width as nat), r@),
    {
        let v = self.segments(width);
        paint_segments(&v)
    }

    /// The panel rendered for the terminal's width, or 80 columns when
    /// stdout is no terminal.
    pub fn render_to_string(&self) -> (r: String)
        ensures
            exists|w: u16| #[trigger] rendered(layout(self@, w as nat), r@),
    {
        let width: u16 = match terminal_size() {
            Some((_, cols)) => cols,
            None => 80,
        };
        let r = self.render_to_string_with_width(width as usize);
        assert(rendered(layout(self@, width as nat), r@));
        r
    }
}

} // verus!
