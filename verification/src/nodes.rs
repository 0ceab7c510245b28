//! Node resource figures: usage gauges and byte sizes.
use vstd::prelude::*;
use crate::panel::{paint_segments, plain, push_seg, rendered, segs_view, tinted, SegView, Segment};
use crate::style::{BORDER_SUBTLE, GREEN, RED, YELLOW};
use crate::text::{concat2, dec, dec_str, digit, digit_char, pad_left, pad_left_str, repeat, repeat_str};

verus! {

/// The gauge's colour: red from 80 %, yellow from 60 %, else green.
pub open spec fn gauge_code(percent: u32) -> u8 {
    if percent >= 80 {
        RED
    } else if percent >= 60 {
        YELLOW
    } else {
        GREEN
    }
}

/// A 16-cell usage bar: `percent * 16 / 100` filled cells in the gauge's
/// colour, the rest shaded, then the percentage right-aligned in 3 columns.
pub open spec fn gauge_layout(percent: u32) -> Seq<SegView> {
    let filled = (percent * 16 / 100) as nat;
    seq![
        tinted(gauge_code(percent), repeat(seq!['█'], filled)),
        tinted(BORDER_SUBTLE, repeat(seq!['░'], (16 - filled) as nat)),
        plain(seq![' '] + pad_left(dec(percent as nat), 3) + seq!['%']),
    ]
}

/// The gauge of a usage `percent` (at most 106, where the bar is full).
pub fn format_gauge(percent: u32) -> (r: String)
    requires
        percent <= 106,
    ensures
        rendered(gauge_layout(percent), r@),
{
    let filled: usize = (percent as usize * 16) / 100;
    let empty: usize = 16 - filled;
    let code: u8 = if percent >= 80 {
        RED
    } else if percent >= 60 {
        YELLOW
    } else {
        GREEN
    };
    proof {
        reveal_strlit("█");
        reveal_strlit("░");
        reveal_strlit(" ");
        reveal_strlit("%");
        assert("█"@ =~= seq!['█']);
        assert("░"@ =~= seq!['░']);
        assert(" "@ =~= seq![' ']);
        assert("%"@ =~= seq!['%']);
    }
    let mut v: Vec<Segment> = Vec::new();
    push_seg(&mut v, Some(code), repeat_str("█", filled));
    push_seg(&mut v, Some(BORDER_SUBTLE), repeat_str("░", empty));
    let pct = pad_left_str(dec_str(percent as u128).as_str(), 3);
    let tail = concat2(concat2(" ", pct.as_str()).as_str(), "%");
    push_seg(&mut v, None, tail);
    assert(segs_view(v@) =~= gauge_layout(percent));
    paint_segments(&v)
}

/// `n / d` rounded to the nearest whole number, a tie going to the even one
/// (how a float is rounded when it is formatted).
pub open spec fn round_half_even(n: nat, d: nat) -> nat {
    let q = n / d;
    let r = n % d;
    if 2 * r > d || (2 * r == d && q % 2 == 1) {
        q + 1
    } else {
        q
    }
}

/// A byte size: gibibytes with one decimal from 1 GiB, whole mebibytes from
/// 1 MiB, else bytes.
pub open spec fn bytes_text(bytes: u64) -> Seq<char> {
    if bytes >= 1_073_741_824 {
        let tenths = round_half_even((bytes * 10) as nat, 1_073_741_824);
        dec(tenths / 10) + seq!['.', digit_char(tenths % 10), 'G', 'i']
    } else if bytes >= 1_048_576 {
        dec(round_half_even(bytes as nat, 1_048_576)) + seq!['M', 'i']
    } else {
        dec(bytes as nat) + seq!['B']
    }
}

fn round_half_even_u128(n: u128, d: u128) -> (r: u128)
    requires
        0 < d <= 0x1_0000_0000_0000,
        n < 0x1_0000_0000_0000_0000_0000,
    ensures
        r == round_half_even(n as nat, d as nat),
{
    let q = n / d;
    let r = n % d;
    if 2 * r > d || (2 * r == d && q % 2 == 1) {
        q + 1
    } else {
        q
    }
}

/// A byte size in `Gi` (one decimal), `Mi` or `B`.
pub fn format_bytes(bytes: u64) -> (r: String)
    ensures
        r@ == bytes_text(bytes),
{
    proof {
        reveal_strlit("Gi");
        reveal_strlit("Mi");
        reveal_strlit("B");
        reveal_strlit(".");
    }
    if bytes >= 1_073_741_824 {
        let tenths = round_half_even_u128(bytes as u128 * 10, 1_073_741_824);
        let mut r = dec_str(tenths / 10);
        crate::text::push_char(&mut r, '.');
        crate::text::push_char(&mut r, digit(tenths % 10));
        crate::text::push_char(&mut r, 'G');
        crate::text::push_char(&mut r, 'i');
        r
    } else if bytes >= 1_048_576 {
        let m = round_half_even_u128(bytes as u128, 1_048_576);
        concat2(dec_str(m).as_str(), "Mi")
    } else {
        concat2(dec_str(bytes as u128).as_str(), "B")
    }
}

} // verus!
