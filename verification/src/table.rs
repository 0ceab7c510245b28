//! Plain (unboxed) tables: column-aligned lines for the terminal, and one
//! record per row for JSON output.
use vstd::prelude::*;
use crate::panel::{
    append_segs, header_parts, is_status_col, join_parts, lemma_join_take, lemma_lines_take, nat_seq, plain, push_seg,
    pairs_view, rows_view, sat_sub, segs_view, strings_view, strs_view, tinted, two_spaces, SegView, Segment,
};
use crate::style::{status_code, status_dot_text, status_style, strip_ansi_codes, ansi_stripped, TEXT_SECONDARY};
use crate::text::{
    byte_len, concat2, eq_ignore_ascii_case_str, owned, pad_right, pad_right_str, spaces, spaces_str, str_len,
    to_lowercase, to_uppercase, unicode_lower,
};

verus! {

/// Width of column `i` over the header and the first `n` rows, in bytes.
pub open spec fn raw_col_width(headers: Seq<Seq<char>>, rows: Seq<Seq<Seq<char>>>, i: int, n: nat) -> nat
    decreases n,
{
    if n == 0 || n > rows.len() {
        byte_len(headers[i])
    } else {
        let prev = raw_col_width(headers, rows, i, (n - 1) as nat);
        let cell = if i < rows[n - 1].len() {
            byte_len(rows[n - 1][i])
        } else {
            0
        };
        if cell > prev {
            cell
        } else {
            prev
        }
    }
}

pub open spec fn raw_col_widths(headers: Seq<Seq<char>>, rows: Seq<Seq<Seq<char>>>) -> Seq<nat> {
    Seq::new(headers.len(), |i: int| raw_col_width(headers, rows, i, rows.len()))
}

/// A cell padded to its column; a status cell becomes a coloured status dot.
pub open spec fn print_cell(headers: Seq<Seq<char>>, ws: Seq<nat>, cell: Seq<char>, i: int) -> Seq<SegView> {
    let w = if 0 <= i < ws.len() {
        ws[i]
    } else {
        byte_len(cell)
    };
    if is_status_col(headers, i) {
        let dot = status_dot_text(cell);
        seq![tinted(status_code(cell), dot), plain(spaces(sat_sub(w, byte_len(ansi_stripped(dot)))))]
    } else {
        seq![plain(pad_right(cell, w))]
    }
}

pub open spec fn print_row_parts(headers: Seq<Seq<char>>, ws: Seq<nat>, row: Seq<Seq<char>>) -> Seq<Seq<SegView>> {
    Seq::new(row.len(), |i: int| print_cell(headers, ws, row[i], i))
}

/// The first `n` data lines.
pub open spec fn print_rows(headers: Seq<Seq<char>>, ws: Seq<nat>, rows: Seq<Seq<Seq<char>>>, n: nat) -> Seq<SegView>
    decreases n,
{
    if n == 0 || n > rows.len() {
        seq![]
    } else {
        print_rows(headers, ws, rows, (n - 1) as nat) + join_parts(print_row_parts(headers, ws, rows[n - 1]))
            + seq![plain(seq!['\n'])]
    }
}

/// The table as printed: the upper-cased header line and one line per row,
/// columns two spaces apart; a notice when there are no rows.
pub open spec fn print_layout(headers: Seq<Seq<char>>, rows: Seq<Seq<Seq<char>>>) -> Seq<SegView> {
    if rows.len() == 0 {
        seq![plain("No resources found.\n"@)]
    } else {
        let ws = raw_col_widths(headers, rows);
        join_parts(header_parts(headers, ws)) + seq![plain(seq!['\n'])] + print_rows(headers, ws, rows, rows.len())
    }
}

fn raw_column_widths(headers: &[&str], rows: &[Vec<String>]) -> (ws: Vec<usize>)
    ensures
        ws.len() == headers.len(),
        nat_seq(ws@) == raw_col_widths(strs_view(headers@), rows_view(rows@)),
{
    let ghost hv = strs_view(headers@);
    let ghost rv = rows_view(rows@);
    let cols = headers.len();
    let mut ws: Vec<usize> = Vec::new();
    let mut i: usize = 0;
    while i < cols
        invariant
            cols == headers.len(),
            hv == strs_view(headers@),
            i <= cols,
            ws.len() == i,
            forall|j: int| 0 <= j < i ==> ws[j] == raw_col_width(hv, rv, j, 0),
        decreases cols - i,
    {
        ws.push(str_len(headers[i]));
        i += 1;
    }
    let mut n: usize = 0;
    while n < rows.len()
        invariant
            cols == headers.len(),
            hv == strs_view(headers@),
            rv == rows_view(rows@),
            ws.len() == cols,
            n <= rows.len(),
            forall|j: int| 0 <= j < cols ==> ws[j] == raw_col_width(hv, rv, j, n as nat),
        decreases rows.len() - n,
    {
        let row = &rows[n];
        let mut j: usize = 0;
        while j < row.len() && j < cols
            invariant
                cols == headers.len(),
                hv == strs_view(headers@),
                rv == rows_view(rows@),
                row == rows@[n as int],
                n < rows.len(),
                ws.len() == cols,
                j <= cols,
                j <= row.len(),
                forall|k: int| 0 <= k < j ==> ws[k] == raw_col_width(hv, rv, k, (n + 1) as nat),
                forall|k: int| j <= k < cols ==> ws[k] == raw_col_width(hv, rv, k, n as nat),
            decreases cols - j,
        {
            let l = str_len(row[j].as_str());
            proof {
                assert(rv[n as int][j as int] == row[j as int]@);
            }
            if l > ws[j] {
                ws.set(j, l);
            }
            j += 1;
        }
        proof {
            assert forall|k: int| j <= k < cols implies ws[k] == raw_col_width(hv, rv, k, (n + 1) as nat) by {
                assert(rv[n as int].len() == row.len());
            }
        }
        n += 1;
    }
    proof {
        assert(nat_seq(ws@) =~= raw_col_widths(hv, rv));
    }
    ws
}

fn print_cell_segs(headers: &[&str], ws: &Vec<usize>, cell: &str, i: usize) -> (v: Vec<Segment>)
    requires
        ws.len() == headers.len(),
    ensures
        segs_view(v@) == print_cell(strs_view(headers@), nat_seq(ws@), cell@, i as int),
{
    let ghost hv = strs_view(headers@);
    let ghost wv = nat_seq(ws@);
    let w: usize = if i < ws.len() {
        ws[i]
    } else {
        str_len(cell)
    };
    proof {
        reveal_strlit("status");
        reveal_strlit("● ");
        assert("● "@ =~= seq!['●', ' ']);
    }
    let is_status = i < headers.len() && eq_ignore_ascii_case_str(headers[i], "status");
    let mut v: Vec<Segment> = Vec::new();
    if is_status {
        let code = status_style(cell);
        let lower = to_lowercase(cell);
        let dot = concat2("● ", lower.as_str());
        let dot_plain = strip_ansi_codes(dot.as_str());
        let dl = str_len(dot_plain.as_str());
        let pad = spaces_str(if w >= dl {
            w - dl
        } else {
            0
        });
        push_seg(&mut v, Some(code), dot);
        push_seg(&mut v, None, pad);
    } else {
        push_seg(&mut v, None, pad_right_str(cell, w));
    }
    proof {
        assert(is_status == is_status_col(hv, i as int));
    }
    assert(segs_view(v@) =~= print_cell(hv, wv, cell@, i as int));
    v
}

fn print_row_segs(headers: &[&str], ws: &Vec<usize>, row: &Vec<String>) -> (v: Vec<Segment>)
    requires
        ws.len() == headers.len(),
    ensures
        segs_view(v@) == join_parts(print_row_parts(strs_view(headers@), nat_seq(ws@), strings_view(row@))),
{
    let ghost hv = strs_view(headers@);
    let ghost wv = nat_seq(ws@);
    let ghost ps = print_row_parts(hv, wv, strings_view(row@));
    let mut line: Vec<Segment> = Vec::new();
    let mut i: usize = 0;
    while i < row.len()
        invariant
            ws.len() == headers.len(),
            hv == strs_view(headers@),
            wv == nat_seq(ws@),
            ps == print_row_parts(hv, wv, strings_view(row@)),
            i <= row.len(),
            segs_view(line@) == join_parts(ps.take(i as int)),
        decreases row.len() - i,
    {
        if i > 0 {
            push_seg(&mut line, None, two_spaces());
        }
        let part = print_cell_segs(headers, ws, row[i].as_str(), i);
        append_segs(&mut line, part);
        proof {
            lemma_join_take(ps, i as int);
            assert(segs_view(line@) =~= join_parts(ps.take(i + 1)));
        }
        i += 1;
    }
    proof {
        assert(ps.take(row.len() as int) =~= ps);
    }
    line
}

/// The lines that print a table, as coloured segments.
pub fn table_segments(headers: &[&str], rows: &[Vec<String>]) -> (v: Vec<Segment>)
    ensures
        segs_view(v@) == print_layout(strs_view(headers@), rows_view(rows@)),
{
    let ghost hv = strs_view(headers@);
    let ghost rv = rows_view(rows@);
    if rows.len() == 0 {
        let mut v: Vec<Segment> = Vec::new();
        push_seg(&mut v, None, owned("No resources found.\n"));
        assert(segs_view(v@) =~= print_layout(hv, rv));
        return v;
    }
    let ws = raw_column_widths(headers, rows);
    let ghost wv = nat_seq(ws@);
    let ghost ps = header_parts(hv, wv);
    let mut v: Vec<Segment> = Vec::new();
    assert(segs_view(v@) =~= join_parts(ps.take(0)));
    let mut i: usize = 0;
    while i < headers.len()
        invariant
            ws.len() == headers.len(),
            hv == strs_view(headers@),
            wv == nat_seq(ws@),
            ps == header_parts(hv, wv),
            i <= headers.len(),
            segs_view(v@) == join_parts(ps.take(i as int)),
        decreases headers.len() - i,
    {
        if i > 0 {
            push_seg(&mut v, None, two_spaces());
        }
        let up = to_uppercase(headers[i]);
        push_seg(&mut v, Some(TEXT_SECONDARY), pad_right_str(up.as_str(), ws[i]));
        proof {
            lemma_join_take(ps, i as int);
            assert(segs_view(v@) =~= join_parts(ps.take(i + 1)));
        }
        i += 1;
    }
    proof {
        assert(ps.take(headers.len() as int) =~= ps);
    }
    proof {
        reveal_strlit("\n");
        assert("\n"@ =~= seq!['\n']);
    }
    push_seg(&mut v, None, owned("\n"));
    let ghost head = segs_view(v@);
    let mut r: usize = 0;
    while r < rows.len()
        invariant
            ws.len() == headers.len(),
            hv == strs_view(headers@),
            rv == rows_view(rows@),
            wv == nat_seq(ws@),
            r <= rows.len(),
            segs_view(v@) == head + print_rows(hv, wv, rv, r as nat),
        decreases rows.len() - r,
    {
        let line = print_row_segs(headers, &ws, &rows[r]);
        append_segs(&mut v, line);
        push_seg(&mut v, None, owned("\n"));
        proof {
            reveal_strlit("\n");
            assert("\n"@ =~= seq!['\n']);
            assert(rv[r as int] == strings_view(rows@[r as int]@));
        }
        assert(segs_view(v@) =~= head + print_rows(hv, wv, rv, (r + 1) as nat));
        r += 1;
    }
    v
}

/// The key of column `i` in a JSON record: its header lower-cased (empty
/// past the last header).
pub open spec fn record_key(headers: Seq<Seq<char>>, i: int) -> Seq<char> {
    if 0 <= i < headers.len() {
        unicode_lower(headers[i])
    } else {
        unicode_lower(seq![])
    }
}

/// The record of a row: each cell under its column's key.
pub open spec fn record_of(headers: Seq<Seq<char>>, row: Seq<Seq<char>>) -> Seq<(Seq<char>, Seq<char>)> {
    Seq::new(row.len(), |i: int| (record_key(headers, i), row[i]))
}

/// One record per row: each cell under its column's key.
pub fn table_records(headers: &[&str], rows: &[Vec<String>]) -> (recs: Vec<Vec<(String, String)>>)
    ensures
        recs.len() == rows.len(),
        forall|r: int|
            0 <= r < rows.len() ==> pairs_view(#[trigger] recs@[r]@) == record_of(
                strs_view(headers@),
                strings_view(rows@[r]@),
            ),
{
    let ghost hv = strs_view(headers@);
    let mut recs: Vec<Vec<(String, String)>> = Vec::new();
    let mut r: usize = 0;
    while r < rows.len()
        invariant
            hv == strs_view(headers@),
            r <= rows.len(),
            recs.len() == r,
            forall|q: int|
                0 <= q < r ==> pairs_view(#[trigger] recs@[q]@) == record_of(hv, strings_view(rows@[q]@)),
        decreases rows.len() - r,
    {
        let row = &rows[r];
        let ghost target = record_of(hv, strings_view(row@));
        let mut rec: Vec<(String, String)> = Vec::new();
        let mut i: usize = 0;
        while i < row.len()
            invariant
                hv == strs_view(headers@),
                target == record_of(hv, strings_view(row@)),
                i <= row.len(),
                rec.len() == i,
                forall|k: int| 0 <= k < i ==> (#[trigger] rec@[k]).0@ == record_key(hv, k) && rec@[k].1@ == row@[k]@,
            decreases row.len() - i,
        {
            proof {
                reveal_strlit("");
                assert(""@ =~= Seq::<char>::empty());
            }
            let key = if i < headers.len() {
                to_lowercase(headers[i])
            } else {
                to_lowercase("")
            };
            rec.push((key, owned(row[i].as_str())));
            i += 1;
        }
        assert(pairs_view(rec@) =~= target);
        recs.push(rec);
        r += 1;
    }
    recs
}

} // verus!
