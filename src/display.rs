use vstd::prelude::*;
use crate::trend::{classify_trend, indicator_text, trend_of};

verus! {

pub const KB: u64 = 1024;
pub const MB: u64 = 1048576;
pub const GB: u64 = 1073741824;

/// `s` cut to at most `max_len` characters; a cut string ends in `...` when
/// there is room for it.
pub open spec fn truncated(s: Seq<char>, max_len: int) -> Seq<char> {
    if s.len() <= max_len {
        s
    } else if max_len < 3 {
        s.take(max_len)
    } else {
        s.take(max_len - 3) + "..."@
    }
}

/// Truncate a string to at most `max_len` characters, adding an ellipsis if needed.
pub fn truncate_string(s: &str, max_len: usize) -> (r: String)
    ensures
        r@ == truncated(s@, max_len as int),
{
    let n = s.unicode_len();
    if n <= max_len {
        String::from_str(s)
    } else if max_len < 3 {
        String::from_str(s.substring_char(0, max_len))
    } else {
        String::from_str(s.substring_char(0, max_len - 3)).concat("...")
    }
}

pub open spec fn digit_char(d: nat) -> char {
    if d == 0 { '0' }
    else if d == 1 { '1' }
    else if d == 2 { '2' }
    else if d == 3 { '3' }
    else if d == 4 { '4' }
    else if d == 5 { '5' }
    else if d == 6 { '6' }
    else if d == 7 { '7' }
    else if d == 8 { '8' }
    else { '9' }
}

/// Decimal digits of `n`, without leading zeros.
pub open spec fn decimal(n: nat) -> Seq<char>
    decreases n,
{
    if n < 10 {
        seq![digit_char(n)]
    } else {
        decimal(n / 10).push(digit_char(n % 10))
    }
}

/// `num / den` rounded to the nearest integer, ties to even.
pub open spec fn round_half_even(num: nat, den: nat) -> nat
    recommends
        den > 0,
{
    let q = num / den;
    let r = num % den;
    if 2 * r > den || (2 * r == den && q % 2 == 1) {
        q + 1
    } else {
        q
    }
}

/// A byte count in the largest unit it reaches: whole bytes, kilobytes and
/// megabytes rounded to a whole number, gigabytes to one decimal place.
pub open spec fn memory_text(bytes: nat) -> Seq<char> {
    if bytes >= GB {
        let tenths = round_half_even(bytes * 10, GB as nat);
        decimal(tenths / 10) + "."@ + decimal(tenths % 10) + " GB"@
    } else if bytes >= MB {
        decimal(round_half_even(bytes, MB as nat)) + " MB"@
    } else if bytes >= KB {
        decimal(round_half_even(bytes, KB as nat)) + " KB"@
    } else {
        decimal(bytes) + " B"@
    }
}

/// Relies on the `Display` of `u128` (through `to_string`): its decimal digits.
#[verifier::external_body]
fn decimal_string(n: u128) -> (r: String)
    ensures
        r@ == decimal(n as nat),
{
    n.to_string()
}

fn rounded_quotient(num: u128, den: u128) -> (r: u128)
    requires
        den > 0,
        den < 0x1_0000_0000_0000_0000,
    ensures
        r as nat == round_half_even(num as nat, den as nat),
{
    let q = num / den;
    let rem = num % den;
    if 2 * rem > den || (2 * rem == den && q % 2 == 1) {
        assert(q <= num);
        if q == u128::MAX {
            assert(den == 1) by (nonlinear_arith)
                requires q == num / den, den >= 1, q == u128::MAX, num <= u128::MAX;
            assert(false);
        }
        q + 1
    } else {
        q
    }
}

/// Format a byte count with a unit (B, KB, MB, GB), e.g. "512 KB" or "1.5 GB".
pub fn format_memory(bytes: u64) -> (r: String)
    ensures
        r@ == memory_text(bytes as nat),
{
    if bytes >= GB {
        let tenths = rounded_quotient(bytes as u128 * 10, GB as u128);
        let whole = decimal_string(tenths / 10);
        let frac = decimal_string(tenths % 10);
        whole.concat(".").concat(frac.as_str()).concat(" GB")
    } else if bytes >= MB {
        decimal_string(rounded_quotient(bytes as u128, MB as u128)).concat(" MB")
    } else if bytes >= KB {
        decimal_string(rounded_quotient(bytes as u128, KB as u128)).concat(" KB")
    } else {
        decimal_string(bytes as u128).concat(" B")
    }
}

/// Trend glyph for the change from `previous` to `current`: an up arrow above
/// `threshold`, a down arrow below `-threshold`, a blank otherwise.
pub fn calculate_trend_indicator(current: u32, previous: u32, threshold: u32) -> (r: &'static str)
    ensures
        r@ == indicator_text(trend_of(current as int, Some(previous), threshold as int)),
{
    classify_trend(current, Some(previous), threshold).indicator()
}

} // verus!
