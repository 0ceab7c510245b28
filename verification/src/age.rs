//! Human-friendly ages (`3d`, `5h`, `45m`, `30s`, `just now`).
use vstd::prelude::*;
use crate::text::{concat2, dec, dec_str, owned};

verus! {

/// The age of something `secs` whole seconds old: whole days, else whole
/// hours, else whole minutes, else seconds; `just now` for no time or a
/// time in the future.
pub open spec fn age_text(secs: int) -> Seq<char> {
    if secs < 0 {
        "just now"@
    } else if secs / 86400 > 0 {
        dec((secs / 86400) as nat) + seq!['d']
    } else if secs / 3600 > 0 {
        dec((secs / 3600) as nat) + seq!['h']
    } else if secs / 60 > 0 {
        dec((secs / 60) as nat) + seq!['m']
    } else if secs > 0 {
        dec(secs as nat) + seq!['s']
    } else {
        "just now"@
    }
}

/// The age label for an age of `secs` whole seconds.
pub fn age_label(secs: i128) -> (r: String)
    ensures
        r@ == age_text(secs as int),
{
    proof {
        reveal_strlit("d");
        reveal_strlit("h");
        reveal_strlit("m");
        reveal_strlit("s");
    }
    if secs < 0 {
        return owned("just now");
    }
    let days = secs / 86400;
    if days > 0 {
        return concat2(dec_str(days as u128).as_str(), "d");
    }
    let hours = secs / 3600;
    if hours > 0 {
        return concat2(dec_str(hours as u128).as_str(), "h");
    }
    let minutes = secs / 60;
    if minutes > 0 {
        return concat2(dec_str(minutes as u128).as_str(), "m");
    }
    if secs > 0 {
        return concat2(dec_str(secs as u128).as_str(), "s");
    }
    owned("just now")
}

/// The clock now, measured from the Unix epoch (`SystemTime::now`, then
/// `duration_since(UNIX_EPOCH)`): `Ok` with the whole seconds and the
/// nanoseconds past them when the clock reads after the epoch, `Err` with how
/// far before it the clock reads otherwise. The nanoseconds are under one
/// billion (`Duration::subsec_nanos`); nothing else is promised of the reading.
#[verifier::external_body]
fn clock_reading() -> (r: Result<(u64, u32), (u64, u32)>)
    ensures
        match r {
            Ok((_, n)) => n < 1_000_000_000,
            Err((_, n)) => n < 1_000_000_000,
        },
{
    match std::time::SystemTime::now().duration_since(std::time::UNIX_EPOCH) {
        Ok(d) => Ok((d.as_secs(), d.subsec_nanos())),
        Err(e) => Err((e.duration().as_secs(), e.duration().subsec_nanos())),
    }
}

/// The whole seconds from the Unix epoch to the instant a clock reading names
/// (negative for a reading before the epoch).
pub open spec fn reading_secs(clock: Result<(u64, u32), (u64, u32)>) -> int {
    match clock {
        Ok((s, _)) => s as int,
        Err((s, _)) => -(s as int),
    }
}

/// The nanoseconds past `reading_secs` (counted backwards before the epoch).
pub open spec fn reading_nanos(clock: Result<(u64, u32), (u64, u32)>) -> int {
    match clock {
        Ok((_, n)) => n as int,
        Err((_, n)) => -(n as int),
    }
}

/// The whole seconds from one instant to a later one (negative when it is
/// earlier), the fraction dropped towards zero, as `TimeDelta::num_seconds`
/// counts a `signed_duration_since`.
pub open spec fn whole_seconds(from_secs: int, from_nanos: int, to_secs: int, to_nanos: int) -> int {
    let d = (to_secs - from_secs) * 1_000_000_000 + (to_nanos - from_nanos);
    if d >= 0 {
        d / 1_000_000_000
    } else {
        -((-d) / 1_000_000_000)
    }
}

/// The whole seconds from `(from_secs, from_nanos)` to `(to_secs, to_nanos)`.
pub fn seconds_between(from_secs: i64, from_nanos: u32, to_secs: i64, to_nanos: u32) -> (r: i64)
    requires
        -0x2000_0000_0000_0000 <= from_secs <= 0x2000_0000_0000_0000,
        -0x2000_0000_0000_0000 <= to_secs <= 0x2000_0000_0000_0000,
        from_nanos < 2_000_000_000,
        to_nanos < 2_000_000_000,
    ensures
        r == whole_seconds(from_secs as int, from_nanos as int, to_secs as int, to_nanos as int),
{
    let d: i128 = (to_secs as i128 - from_secs as i128) * 1_000_000_000 + (to_nanos as i128 - from_nanos as i128);
    let q: i128 = if d >= 0 {
        d / 1_000_000_000
    } else {
        -((-d) / 1_000_000_000)
    };
    assert(-9_223_372_036_854_775_808 <= q <= 9_223_372_036_854_775_807) by (nonlinear_arith)
        requires
            d == (to_secs as i128 - from_secs as i128) * 1_000_000_000 + (to_nanos as i128 - from_nanos as i128),
            q == (if d >= 0 { d / 1_000_000_000 } else { -((-d) / 1_000_000_000) }),
            -0x2000_0000_0000_0000 <= from_secs <= 0x2000_0000_0000_0000,
            -0x2000_0000_0000_0000 <= to_secs <= 0x2000_0000_0000_0000,
            from_nanos < 2_000_000_000,
            to_nanos < 2_000_000_000,
    ;
    q as i64
}

/// The age label of the instant `created_secs` seconds and `created_nanos`
/// nanoseconds after the Unix epoch, at the instant that `clock` reads.
pub fn age_at(created_secs: i64, created_nanos: u32, clock: Result<(u64, u32), (u64, u32)>) -> (r: String)
    ensures
        r@ == age_text(
            whole_seconds(created_secs as int, created_nanos as int, reading_secs(clock), reading_nanos(clock)),
        ),
{
    let from: i128 = created_secs as i128 * 1_000_000_000 + created_nanos as i128;
    let to: i128 = match clock {
        Ok((s, n)) => s as i128 * 1_000_000_000 + n as i128,
        Err((s, n)) => -(s as i128 * 1_000_000_000 + n as i128),
    };
    let ghost ts = reading_secs(clock);
    let ghost tn = reading_nanos(clock);
    assert(to == ts * 1_000_000_000 + tn);
    assert(-0x1_0000_0000_0000_0000_0000_0000 < from < 0x1_0000_0000_0000_0000_0000_0000) by (nonlinear_arith)
        requires
            from == created_secs as i128 * 1_000_000_000 + created_nanos as i128,
    ;
    assert(-0x1_0000_0000_0000_0000_0000_0000 < to < 0x1_0000_0000_0000_0000_0000_0000) by (nonlinear_arith)
        requires
            to == ts * 1_000_000_000 + tn,
            -0x1_0000_0000_0000_0000 < ts < 0x1_0000_0000_0000_0000,
            -0x1_0000_0000 < tn < 0x1_0000_0000,
    ;
    let d: i128 = to - from;
    assert(d == (ts - created_secs) * 1_000_000_000 + (tn - created_nanos)) by (nonlinear_arith)
        requires
            d == to - from,
            to == ts * 1_000_000_000 + tn,
            from == created_secs * 1_000_000_000 + created_nanos,
    ;
    let q: i128 = if d >= 0 {
        d / 1_000_000_000
    } else {
        -((-d) / 1_000_000_000)
    };
    age_label(q)
}

/// How long ago the instant `created_secs` seconds and `created_nanos`
/// nanoseconds after the Unix epoch was, as an age label, by the clock now.
pub fn format_age(created_secs: i64, created_nanos: u32) -> (r: String)
    ensures
        exists|clock: Result<(u64, u32), (u64, u32)>|
            r@ == #[trigger] age_text(
                whole_seconds(created_secs as int, created_nanos as int, reading_secs(clock), reading_nanos(clock)),
            ),
{
    let clock = clock_reading();
    age_at(created_secs, created_nanos, clock)
}

} // verus!
