//! Human-readable renderings of byte counts, durations and throughput.
use vstd::prelude::*;
use vstd::string::*;
use crate::text::{dec_text, digits_value, law_dec_text, push_char, push_dec};

verus! {

/// The unit that a byte count is shown in: its size in bytes and its suffix.
pub open spec fn byte_unit(n: nat) -> (nat, Seq<char>) {
    if n >= 0x100_0000_0000 {
        (0x100_0000_0000, "TiB"@)
    } else if n >= 0x4000_0000 {
        (0x4000_0000, "GiB"@)
    } else if n >= 0x10_0000 {
        (0x10_0000, "MiB"@)
    } else {
        (0x400, "KiB"@)
    }
}

/// A byte count as text: below 1024 the plain count with `B`, above it the count
/// in the largest binary unit it reaches, truncated to one decimal (`4.0KiB`).
pub open spec fn human_text(n: nat) -> Seq<char> {
    if n < 1024 {
        dec_text(n) + "B"@
    } else {
        let (unit, suffix) = byte_unit(n);
        dec_text(n / unit) + seq!['.'] + dec_text(((n % unit) * 10) / unit) + suffix
    }
}

/// A duration in nanoseconds as text: whole milliseconds from one millisecond up,
/// whole microseconds from one microsecond up, nanoseconds below that.
pub open spec fn nanos_text(n: nat) -> Seq<char> {
    if n >= 1_000_000 {
        dec_text(n / 1_000_000) + "ms"@
    } else if n >= 1_000 {
        dec_text(n / 1_000) + "us"@
    } else {
        dec_text(n) + "ns"@
    }
}

/// A duration is shown as a whole number followed by a two-letter unit: `ms`
/// from one millisecond up, `us` from one microsecond up, `ns` below; the number
/// is the duration in that unit, rounded down.
pub proof fn law_nanos_text(n: nat)
    ensures
        ({
            let t = nanos_text(n);
            let unit: int = if n >= 1_000_000 { 1_000_000 } else if n >= 1_000 { 1_000 } else { 1 };
            let suffix = t.skip(t.len() - 2);
            let shown = digits_value(t.take(t.len() - 2), 10);
            &&& t.len() >= 3
            &&& suffix == (if n >= 1_000_000 { seq!['m', 's'] } else if n >= 1_000 { seq!['u', 's'] } else { seq!['n', 's'] })
            &&& shown * unit <= n < (shown + 1) * unit
        }),
{
    reveal_strlit("ms");
    reveal_strlit("us");
    reveal_strlit("ns");
    let t = nanos_text(n);
    let q: nat = if n >= 1_000_000 { n / 1_000_000 } else if n >= 1_000 { n / 1_000 } else { n };
    law_dec_text(q);
    let d = dec_text(q);
    assert(t.take(t.len() - 2) =~= d);
    assert(t.skip(t.len() - 2) =~= (if n >= 1_000_000 { seq!['m', 's'] } else if n >= 1_000 { seq!['u', 's'] } else { seq!['n', 's'] }));
}

/// Throughput of a phase: bytes per second when it moved bytes, else items per
/// second when it handled items, else `-` (also when no time was measured).
pub open spec fn rate_text(bytes: nat, items: nat, nanos: nat) -> Seq<char> {
    if nanos == 0 {
        "-"@
    } else if bytes > 0 {
        human_text((bytes * 1_000_000_000) / nanos) + "/s"@
    } else if items > 0 {
        dec_text((items * 1_000_000_000) / nanos) + "/s"@
    } else {
        "-"@
    }
}

/// Appends a byte count in human-readable form.
pub fn push_human(out: &mut String, n: u128)
    ensures
        final(out)@ == old(out)@ + human_text(n as nat),
{
    if n < 1024 {
        push_dec(out, n);
        out.append("B");
        assert(out@ =~= old(out)@ + human_text(n as nat));
    } else {
        let unit: u128;
        let suffix: &str;
        if n >= 0x100_0000_0000 {
            unit = 0x100_0000_0000;
            suffix = "TiB";
        } else if n >= 0x4000_0000 {
            unit = 0x4000_0000;
            suffix = "GiB";
        } else if n >= 0x10_0000 {
            unit = 0x10_0000;
            suffix = "MiB";
        } else {
            unit = 0x400;
            suffix = "KiB";
        }
        assert(byte_unit(n as nat) == (unit as nat, suffix@));
        let rest: u128 = n % unit;
        assert(rest < unit);
        assert(rest * 10 < 10 * 0x100_0000_0000) by (nonlinear_arith)
            requires rest < unit, unit <= 0x100_0000_0000;
        push_dec(out, n / unit);
        push_char(out, '.');
        push_dec(out, (rest * 10) / unit);
        out.append(suffix);
        assert(out@ =~= old(out)@ + human_text(n as nat));
    }
}

/// A byte count in human-readable form.
pub fn human(n: u64) -> (r: String)
    ensures
        r@ == human_text(n as nat),
{
    let mut r = String::new();
    push_human(&mut r, n as u128);
    assert(r@ =~= human_text(n as nat));
    r
}

/// Appends a duration in nanoseconds as text.
pub fn push_nanos(out: &mut String, n: u128)
    ensures
        final(out)@ == old(out)@ + nanos_text(n as nat),
{
    if n >= 1_000_000 {
        push_dec(out, n / 1_000_000);
        out.append("ms");
    } else if n >= 1_000 {
        push_dec(out, n / 1_000);
        out.append("us");
    } else {
        push_dec(out, n);
        out.append("ns");
    }
    assert(out@ =~= old(out)@ + nanos_text(n as nat));
}

/// A duration in nanoseconds as text.
pub fn fmt_ns(n: u128) -> (r: String)
    ensures
        r@ == nanos_text(n as nat),
{
    let mut r = String::new();
    push_nanos(&mut r, n);
    assert(r@ =~= nanos_text(n as nat));
    r
}

/// The throughput of a phase as text.
pub fn rate(bytes: u64, items: u64, nanos: u128) -> (r: String)
    ensures
        r@ == rate_text(bytes as nat, items as nat, nanos as nat),
{
    let mut r = String::new();
    if nanos == 0 {
        r.append("-");
    } else if bytes > 0 {
        let scaled: u128 = (bytes as u128) * 1_000_000_000;
        push_human(&mut r, scaled / nanos);
        r.append("/s");
    } else if items > 0 {
        let scaled: u128 = (items as u128) * 1_000_000_000;
        push_dec(&mut r, scaled / nanos);
        r.append("/s");
    } else {
        r.append("-");
    }
    assert(r@ =~= rate_text(bytes as nat, items as nat, nanos as nat));
    r
}

} // verus!
