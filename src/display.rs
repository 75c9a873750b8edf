//! Compact text forms of sizes, durations and statuses for display.
use vstd::prelude::*;
use vstd::string::StrSliceExecFns;
use vstd::string::StringExecFns;
use crate::text::str_eq;

verus! {

/// Output format of robot mode.
#[derive(Debug, Clone, Copy, PartialEq, Eq, Structural)]
pub enum OutputFormat {
    /// Standard JSON output
    Json,
    /// Token-optimized output
    Toon,
    /// Human-readable text
    Text,
}

/// The decimal digit `d`, for `0 <= d < 10`.
pub open spec fn digit_char(d: int) -> char {
    if d == 0 {
        '0'
    } else if d == 1 {
        '1'
    } else if d == 2 {
        '2'
    } else if d == 3 {
        '3'
    } else if d == 4 {
        '4'
    } else if d == 5 {
        '5'
    } else if d == 6 {
        '6'
    } else if d == 7 {
        '7'
    } else if d == 8 {
        '8'
    } else {
        '9'
    }
}

/// The decimal form of `n`, without leading zeros.
pub open spec fn decimal_of(n: nat) -> Seq<char>
    decreases n,
{
    if n < 10 {
        seq![digit_char(n as int)]
    } else {
        decimal_of(n / 10).push(digit_char((n % 10) as int))
    }
}

/// The decimal digit `d` as text.
fn digit_text(d: u64) -> (r: &'static str)
    requires
        d < 10,
    ensures
        r@ == seq![digit_char(d as int)],
{
    proof {
        reveal_strlit("0");
        reveal_strlit("1");
        reveal_strlit("2");
        reveal_strlit("3");
        reveal_strlit("4");
        reveal_strlit("5");
        reveal_strlit("6");
        reveal_strlit("7");
        reveal_strlit("8");
        reveal_strlit("9");
    }
    let r = if d == 0 {
        "0"
    } else if d == 1 {
        "1"
    } else if d == 2 {
        "2"
    } else if d == 3 {
        "3"
    } else if d == 4 {
        "4"
    } else if d == 5 {
        "5"
    } else if d == 6 {
        "6"
    } else if d == 7 {
        "7"
    } else if d == 8 {
        "8"
    } else {
        "9"
    };
    proof {
        assert(r@ =~= seq![digit_char(d as int)]);
    }
    r
}

/// The decimal form of `n` (see `decimal_of`).
fn decimal(n: u64) -> (r: String)
    ensures
        r@ == decimal_of(n as nat),
    decreases n,
{
    if n < 10 {
        String::from_str(digit_text(n))
    } else {
        let r = decimal(n / 10).concat(digit_text(n % 10));
        proof {
            assert(r@ =~= decimal_of((n / 10) as nat).push(digit_char((n % 10) as int)));
        }
        r
    }
}

/// How `format_duration` shows `secs` seconds.
pub open spec fn duration_text(secs: nat) -> Seq<char> {
    if secs == 0 {
        "just now"@
    } else if secs < 60 {
        decimal_of(secs) + "s"@
    } else if secs < 3600 {
        decimal_of(secs / 60) + "m"@
    } else if secs < 86400 {
        decimal_of(secs / 3600) + "h"@
    } else {
        decimal_of(secs / 86400) + "d"@
    }
}

/// A duration in its largest whole unit: seconds, minutes, hours or days.
pub fn format_duration(secs: u64) -> (r: String)
    ensures
        r@ == duration_text(secs as nat),
{
    if secs == 0 {
        String::from_str("just now")
    } else if secs < 60 {
        decimal(secs).concat("s")
    } else if secs < 3600 {
        decimal(secs / 60).concat("m")
    } else if secs < 86400 {
        decimal(secs / 3600).concat("h")
    } else {
        decimal(secs / 86400).concat("d")
    }
}

/// `n / unit` in tenths, rounded to the nearest tenth, ties to even.
pub open spec fn tenths_of(n: nat, unit: nat) -> nat
    recommends
        unit > 0,
{
    let q = n * 10 / unit;
    let rem = n * 10 % unit;
    if 2 * rem > unit || (2 * rem == unit && q % 2 == 1) {
        q + 1
    } else {
        q
    }
}

/// `n / unit` with one decimal and the unit's suffix.
pub open spec fn scaled_text(n: nat, unit: nat, suffix: Seq<char>) -> Seq<char> {
    let t = tenths_of(n, unit);
    decimal_of(t / 10) + "."@ + decimal_of(t % 10) + suffix
}

/// How `format_bytes` shows a size of `bytes`.
pub open spec fn bytes_text(bytes: nat) -> Seq<char> {
    if bytes >= 0x100_0000_0000 {
        scaled_text(bytes, 0x100_0000_0000, "TB"@)
    } else if bytes >= 0x4000_0000 {
        scaled_text(bytes, 0x4000_0000, "GB"@)
    } else if bytes >= 0x10_0000 {
        scaled_text(bytes, 0x10_0000, "MB"@)
    } else if bytes >= 0x400 {
        scaled_text(bytes, 0x400, "KB"@)
    } else {
        decimal_of(bytes) + "B"@
    }
}

/// `bytes / unit` with one decimal and the unit's suffix.
fn scaled(bytes: u64, unit: u64, suffix: &str) -> (r: String)
    requires
        unit > 0,
    ensures
        r@ == scaled_text(bytes as nat, unit as nat, suffix@),
{
    let n: u128 = bytes as u128 * 10;
    let q: u128 = n / unit as u128;
    let rem: u128 = n % unit as u128;
    let t: u128 = if 2 * rem > unit as u128 || (2 * rem == unit as u128 && q % 2 == 1) {
        q + 1
    } else {
        q
    };
    proof {
        assert(q <= n) by (nonlinear_arith)
            requires
                q == n / unit as u128,
                unit >= 1;
    }
    let whole = decimal((t / 10) as u64);
    let tenth = decimal((t % 10) as u64);
    whole.concat(".").concat(tenth.as_str()).concat(suffix)
}

/// A size in bytes in its largest binary unit, with one decimal above bytes.
pub fn format_bytes(bytes: u64) -> (r: String)
    ensures
        r@ == bytes_text(bytes as nat),
{
    if bytes >= 0x100_0000_0000 {
        scaled(bytes, 0x100_0000_0000, "TB")
    } else if bytes >= 0x4000_0000 {
        scaled(bytes, 0x4000_0000, "GB")
    } else if bytes >= 0x10_0000 {
        scaled(bytes, 0x10_0000, "MB")
    } else if bytes >= 0x400 {
        scaled(bytes, 0x400, "KB")
    } else {
        decimal(bytes).concat("B")
    }
}

/// The short form of a machine status; other statuses stay as they are.
pub open spec fn status_short(s: Seq<char>) -> Seq<char> {
    if s == "online"@ {
        "on"@
    } else if s == "offline"@ {
        "off"@
    } else if s == "degraded"@ {
        "deg"@
    } else if s == "unknown"@ {
        "unk"@
    } else {
        s
    }
}

/// The short form of a machine status (see `status_short`).
pub fn status_abbrev(status: &str) -> (r: &str)
    ensures
        r@ == status_short(status@),
{
    if str_eq(status, "online") {
        "on"
    } else if str_eq(status, "offline") {
        "off"
    } else if str_eq(status, "degraded") {
        "deg"
    } else if str_eq(status, "unknown") {
        "unk"
    } else {
        status
    }
}

/// `s` cut to at most `max_len` characters, the cut marked by `..` where
/// there is room for it.
pub open spec fn abbreviated(s: Seq<char>, max_len: nat) -> Seq<char> {
    if s.len() <= max_len {
        s
    } else if max_len <= 2 {
        s.subrange(0, max_len as int)
    } else {
        s.subrange(0, max_len - 2) + ".."@
    }
}

/// Abbreviates `s` to at most `max_len` characters (see `abbreviated`).
pub fn abbreviate(s: &str, max_len: usize) -> (r: String)
    ensures
        r@ == abbreviated(s@, max_len as nat),
{
    let n = s.unicode_len();
    if n <= max_len {
        String::from_str(s)
    } else if max_len <= 2 {
        String::from_str(s.substring_char(0, max_len))
    } else {
        String::from_str(s.substring_char(0, max_len - 2)).concat("..")
    }
}

} // verus!
