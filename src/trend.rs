use vstd::prelude::*;

verus! {

/// Smallest change, in hundredths of a percent, that counts as a trend.
pub const TREND_THRESHOLD: u32 = 10;

/// Direction of a process's CPU percentage between two consecutive cycles.
#[derive(Clone, Copy, Debug, PartialEq, Eq, Structural)]
pub enum Trend {
    Up,
    Down,
    Stable,
    Unknown,
}

/// The trend from `previous` to `current`: a change of exactly `threshold`
/// is still stable; no previous value gives `Unknown`.
pub open spec fn trend_of(current: int, previous: Option<u32>, threshold: int) -> Trend {
    match previous {
        None => Trend::Unknown,
        Some(p) => if current - p > threshold {
            Trend::Up
        } else if current - p < -threshold {
            Trend::Down
        } else {
            Trend::Stable
        },
    }
}

/// The glyph shown for a trend.
pub open spec fn indicator_text(t: Trend) -> Seq<char> {
    match t {
        Trend::Up => "\u{2191}"@,
        Trend::Down => "\u{2193}"@,
        _ => " "@,
    }
}

impl Trend {
    pub fn indicator(&self) -> (r: &'static str)
        ensures
            r@ == indicator_text(*self),
    {
        match self {
            Trend::Up => "\u{2191}",
            Trend::Down => "\u{2193}",
            _ => " ",
        }
    }
}

/// Classify the change from `previous` to `current` (both in hundredths of a percent).
pub fn classify_trend(current: u32, previous: Option<u32>, threshold: u32) -> (r: Trend)
    ensures
        r == trend_of(current as int, previous, threshold as int),
{
    match previous {
        None => Trend::Unknown,
        Some(p) => {
            let diff: i64 = current as i64 - p as i64;
            if diff > threshold as i64 {
                Trend::Up
            } else if diff < -(threshold as i64) {
                Trend::Down
            } else {
                Trend::Stable
            }
        },
    }
}

} // verus!
