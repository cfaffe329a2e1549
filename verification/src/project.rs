//! The project document: the canvas together with the active color and
//! symmetry mode, stamped with creation and modification times.

use vstd::prelude::*;

use crate::canvas::Canvas;
use crate::cell::Rgb;
use crate::export::spec_decimal;
use crate::symmetry::SymmetryMode;
use crate::text::chars_to_string;

verus! {

/// A document: a canvas plus the drawing state worth keeping with it.
pub struct Project {
    pub version: u32,
    pub name: String,
    pub created_at: String,
    pub modified_at: String,
    pub color: Rgb,
    pub symmetry: SymmetryMode,
    pub canvas: Canvas,
}

impl Project {
    /// A fresh document around a canvas, stamped with the present time.
    pub fn new(name: &str, canvas: Canvas, color: Rgb, sym: SymmetryMode) -> (p: Self)
        requires
            canvas.wf(),
        ensures
            p.version == 5,
            p.name@ == name@,
            p.color == color,
            p.symmetry == sym,
            p.canvas == canvas,
            p.canvas.wf(),
            p.created_at@ == p.modified_at@,
            exists|secs: int| 0 <= secs && p.created_at@ == #[trigger] spec_iso8601(secs),
    {
        let now = now_iso8601();
        let now2 = now.clone();
        Project {
            version: 5,
            name: name.to_owned(),
            created_at: now,
            modified_at: now2,
            color,
            symmetry: sym,
            canvas,
        }
    }
}

/// Relies on `std::time::SystemTime::now`: seconds since the Unix epoch,
/// zero when the clock reads earlier than the epoch. Nothing else can be
/// said of a clock reading.
#[verifier::external_body]
fn now_unix_secs() -> (secs: u64) {
    std::time::SystemTime::now()
        .duration_since(std::time::SystemTime::UNIX_EPOCH)
        .unwrap_or_default()
        .as_secs()
}

/// The civil date `(year, month, day)` of a day count since the Unix epoch,
/// by the standard era decomposition of the Gregorian calendar.
pub open spec fn spec_civil_from_days(days: int) -> (int, int, int) {
    let z = days + 719468;
    let era = z / 146097;
    let doe = z - era * 146097;
    let yoe = (doe - doe / 1460 + doe / 36524 - doe / 146096) / 365;
    let y = yoe + era * 400;
    let doy = doe - (365 * yoe + yoe / 4 - yoe / 100);
    let mp = (5 * doy + 2) / 153;
    let d = doy - (153 * mp + 2) / 5 + 1;
    let m = if mp < 10 {
        mp + 3
    } else {
        mp - 9
    };
    (if m <= 2 {
        y + 1
    } else {
        y
    }, m, d)
}

/// Convert a day count since the Unix epoch to a civil `(year, month, day)`
/// date.
pub fn days_to_date(days: u64) -> (ymd: (u64, u64, u64))
    requires
        days <= u64::MAX - 719468,
    ensures
        (ymd.0 as int, ymd.1 as int, ymd.2 as int) == spec_civil_from_days(days as int),
{
    let z = days + 719468;
    let era = z / 146097;
    proof {
        assert(era * 146097 <= z && z - era * 146097 < 146097) by (nonlinear_arith)
            requires
                era == z as int / 146097,
                z >= 0,
        ;
    }
    let doe = z - era * 146097;
    let yoe = (doe - doe / 1460 + doe / 36524 - doe / 146096) / 365;
    proof {
        assert(yoe <= 399) by (nonlinear_arith)
            requires
                yoe == (doe as int - doe as int / 1460 + doe as int / 36524 - doe as int / 146096)
                    / 365,
                0 <= doe < 146097,
        ;
        assert(365 * (yoe as int) + yoe as int / 4 - yoe as int / 100 <= doe) by (nonlinear_arith)
            requires
                yoe == (doe as int - doe as int / 1460 + doe as int / 36524 - doe as int / 146096)
                    / 365,
                0 <= doe < 146097,
        ;
    }
    let y = yoe + era * 400;
    let doy = doe - (365 * yoe + yoe / 4 - yoe / 100);
    let mp = (5 * doy + 2) / 153;
    proof {
        assert((153 * (mp as int) + 2) / 5 <= doy) by (nonlinear_arith)
            requires
                mp == (5 * doy as int + 2) / 153,
                0 <= doy,
        ;
    }
    let d = doy - (153 * mp + 2) / 5 + 1;
    let m = if mp < 10 {
        mp + 3
    } else {
        mp - 9
    };
    (
        if m <= 2 {
            y + 1
        } else {
            y
        },
        m,
        d,
    )
}

/// A number's decimal digits, zero-padded on the left to at least two.
pub open spec fn spec_pad2(n: int) -> Seq<char> {
    if n < 10 {
        seq!['0'] + spec_decimal(n)
    } else {
        spec_decimal(n)
    }
}

/// A number's decimal digits, zero-padded on the left to at least four.
pub open spec fn spec_pad4(n: int) -> Seq<char> {
    if n < 10 {
        seq!['0', '0', '0'] + spec_decimal(n)
    } else if n < 100 {
        seq!['0', '0'] + spec_decimal(n)
    } else if n < 1000 {
        seq!['0'] + spec_decimal(n)
    } else {
        spec_decimal(n)
    }
}

/// The timestamp text of a count of seconds since the Unix epoch:
/// `YYYY-MM-DDThh:mm:ssZ`, with the date by the Gregorian calendar.
pub open spec fn spec_iso8601(secs: int) -> Seq<char> {
    let ymd = spec_civil_from_days(secs / 86400);
    let time = secs % 86400;
    spec_pad4(ymd.0) + seq!['-'] + spec_pad2(ymd.1) + seq!['-'] + spec_pad2(ymd.2) + seq!['T']
        + spec_pad2(time / 3600) + seq![':'] + spec_pad2((time % 3600) / 60) + seq![':']
        + spec_pad2(time % 60) + seq!['Z']
}

fn digit_of(v: u64) -> (c: char)
    requires
        v < 10,
    ensures
        c == crate::cell::spec_hex_upper(v as int),
{
    match v {
        0 => '0',
        1 => '1',
        2 => '2',
        3 => '3',
        4 => '4',
        5 => '5',
        6 => '6',
        7 => '7',
        8 => '8',
        _ => '9',
    }
}

fn push_decimal_u64(out: &mut Vec<char>, n: u64)
    ensures
        final(out)@ == old(out)@ + spec_decimal(n as int),
    decreases n,
{
    if n < 10 {
        out.push(digit_of(n));
    } else {
        proof {
            assert(n as int / 10 < n as int) by (nonlinear_arith)
                requires
                    n >= 10,
            ;
        }
        push_decimal_u64(out, n / 10);
        out.push(digit_of(n % 10));
    }
    proof {
        assert(out@ =~= old(out)@ + spec_decimal(n as int));
    }
}

fn push_pad2(out: &mut Vec<char>, n: u64)
    ensures
        final(out)@ == old(out)@ + spec_pad2(n as int),
{
    if n < 10 {
        out.push('0');
    }
    push_decimal_u64(out, n);
    proof {
        assert(out@ =~= old(out)@ + spec_pad2(n as int));
    }
}

fn push_pad4(out: &mut Vec<char>, n: u64)
    ensures
        final(out)@ == old(out)@ + spec_pad4(n as int),
{
    if n < 10 {
        out.push('0');
        out.push('0');
        out.push('0');
    } else if n < 100 {
        out.push('0');
        out.push('0');
    } else if n < 1000 {
        out.push('0');
    }
    push_decimal_u64(out, n);
    proof {
        assert(out@ =~= old(out)@ + spec_pad4(n as int));
    }
}

/// Render a count of seconds since the Unix epoch as `YYYY-MM-DDThh:mm:ssZ`.
pub fn format_timestamp(secs: u64) -> (s: String)
    ensures
        s@ == spec_iso8601(secs as int),
{
    let days = secs / 86400;
    let time = secs % 86400;
    proof {
        assert(days <= u64::MAX - 719468) by (nonlinear_arith)
            requires
                days == secs as int / 86400,
                secs <= u64::MAX,
        ;
    }
    let (year, month, day) = days_to_date(days);
    let mut out: Vec<char> = Vec::new();
    push_pad4(&mut out, year);
    out.push('-');
    push_pad2(&mut out, month);
    out.push('-');
    push_pad2(&mut out, day);
    out.push('T');
    push_pad2(&mut out, time / 3600);
    out.push(':');
    push_pad2(&mut out, (time % 3600) / 60);
    out.push(':');
    push_pad2(&mut out, time % 60);
    out.push('Z');
    proof {
        assert(out@ =~= spec_iso8601(secs as int));
    }
    chars_to_string(&out)
}

/// The present moment as `YYYY-MM-DDThh:mm:ssZ`.
pub fn now_iso8601() -> (s: String)
    ensures
        exists|secs: int| 0 <= secs && s@ == #[trigger] spec_iso8601(secs),
{
    let secs = now_unix_secs();
    let s = format_timestamp(secs);
    proof {
        assert(s@ == spec_iso8601(secs as int));
    }
    s
}

} // verus!
