//! Reading the values a stream probe reports.
use vstd::prelude::*;

verus! {

/// Frame rate assumed when the probe gives none in `num/den` form.
pub const DEFAULT_FPS: u64 = 30;

/// Whether every byte is an ASCII decimal digit, and there is at least one.
pub open spec fn is_decimal(b: Seq<u8>) -> bool {
    b.len() > 0 && forall|i: int| 0 <= i < b.len() ==> 48 <= #[trigger] b[i] <= 57
}

/// Value of ASCII decimal digits.
pub open spec fn decimal_value(b: Seq<u8>) -> int
    decreases b.len(),
{
    if b.len() == 0 {
        0
    } else {
        decimal_value(b.drop_last()) * 10 + (b.last() - 48)
    }
}

/// Number of `/` bytes.
pub open spec fn slash_count(b: Seq<u8>) -> nat
    decreases b.len(),
{
    if b.len() == 0 {
        0
    } else {
        slash_count(b.drop_last()) + if b.last() == 47 {
            1nat
        } else {
            0nat
        }
    }
}

/// The number written by the digits, if they are digits and it fits a `u64`.
pub open spec fn decimal_u64(b: Seq<u8>) -> Option<u64> {
    if is_decimal(b) && decimal_value(b) <= u64::MAX {
        Some(decimal_value(b) as u64)
    } else {
        None
    }
}

proof fn lemma_decimal_prefix_grows(b: Seq<u8>, i: int, j: int)
    requires
        0 <= i <= j <= b.len(),
        forall|k: int| 0 <= k < b.len() ==> 48 <= #[trigger] b[k] <= 57,
    ensures
        0 <= decimal_value(b.take(j)),
        decimal_value(b.take(i)) <= decimal_value(b.take(j)),
    decreases j,
{
    if j > 0 {
        let i1 = if i < j {
            i
        } else {
            j - 1
        };
        lemma_decimal_prefix_grows(b, i1, j - 1);
        assert(b.take(j).drop_last() == b.take(j - 1));
        assert(b.take(j).last() == b[j - 1]);
    }
}

/// The number written by `b[lo..hi]`, if it is decimal digits and fits a `u64`.
fn parse_decimal(b: &Vec<u8>, lo: usize, hi: usize) -> (r: Option<u64>)
    requires
        lo <= hi <= b@.len(),
    ensures
        r == decimal_u64(b@.subrange(lo as int, hi as int)),
{
    let ghost part = b@.subrange(lo as int, hi as int);
    if lo == hi {
        return None;
    }
    let mut value: u128 = 0;
    let mut i: usize = lo;
    while i < hi
        invariant
            lo <= i <= hi <= b@.len(),
            part == b@.subrange(lo as int, hi as int),
            forall|k: int| 0 <= k < i - lo ==> 48 <= #[trigger] part[k] <= 57,
            value == decimal_value(part.take(i - lo)),
            value <= u64::MAX,
        decreases hi - i,
    {
        let c = b[i];
        if c < 48 || c > 57 {
            assert(part[i - lo] == c);
            return None;
        }
        proof {
            assert(part.take(i - lo + 1).drop_last() == part.take(i - lo));
        }
        value = value * 10 + (c - 48) as u128;
        i = i + 1;
        if value > u64::MAX as u128 {
            proof {
                if is_decimal(part) {
                    lemma_decimal_prefix_grows(part, i - lo, part.len() as int);
                    assert(part.take(part.len() as int) == part);
                }
            }
            return None;
        }
    }
    proof {
        assert(part.take(hi - lo) == part);
    }
    Some(value as u64)
}

/// Frame rate from a probe's `num/den` text. Text without exactly one `/`
/// gives the default of 30 frames per second; otherwise both sides must be
/// decimal numbers that fit a `u64`, with a non-zero denominator, else there
/// is no rate.
pub fn parse_frame_rate(text: &Vec<u8>) -> (r: Option<(u64, u64)>)
    ensures
        slash_count(text@) != 1 ==> r == Some((DEFAULT_FPS, 1u64)),
        forall|k: int|
            0 <= k < text@.len() && text@[k] == 47 && slash_count(text@) == 1 ==> r == match (
                decimal_u64(text@.take(k)),
                decimal_u64(text@.skip(k + 1)),
            ) {
                (Some(num), Some(den)) => if den > 0 {
                    Some((num, den))
                } else {
                    None
                },
                _ => None,
            },
{
    let n = text.len();
    let mut slashes: usize = 0;
    let mut at: usize = 0;
    let mut i: usize = 0;
    while i < n
        invariant
            n == text@.len(),
            0 <= i <= n,
            slashes == slash_count(text@.take(i as int)),
            slashes <= i,
            slashes > 0 ==> at < i && text@[at as int] == 47,
            slashes == 0 ==> forall|k: int| 0 <= k < i ==> text@[k] != 47,
            slashes == 1 ==> forall|k: int| 0 <= k < i && text@[k] == 47 ==> k == at,
        decreases n - i,
    {
        proof {
            assert(text@.take(i as int + 1).drop_last() == text@.take(i as int));
        }
        if text[i] == 47 {
            if slashes == 0 {
                at = i;
            }
            slashes = slashes + 1;
        }
        i = i + 1;
    }
    proof {
        assert(text@.take(n as int) == text@);
    }
    if slashes != 1 {
        return Some((DEFAULT_FPS, 1));
    }
    let num = parse_decimal(text, 0, at);
    let den = parse_decimal(text, at + 1, n);
    proof {
        assert(text@.subrange(0, at as int) == text@.take(at as int));
        assert(text@.subrange(at + 1, n as int) == text@.skip(at + 1));
    }
    match (num, den) {
        (Some(a), Some(b)) => if b > 0 {
            Some((a, b))
        } else {
            None
        },
        _ => None,
    }
}

/// Frames in a duration at a frame rate, rounded down and capped at
/// `u32::MAX`.
pub fn frames_in_duration(duration_millis: u64, fps_num: u64, fps_den: u64) -> (r: u32)
    requires
        fps_den > 0,
    ensures
        r == (if duration_millis * fps_num / (1000 * fps_den) < u32::MAX {
            duration_millis * fps_num / (1000 * fps_den)
        } else {
            u32::MAX as int
        }),
{
    proof {
        assert(duration_millis * fps_num <= 0xFFFF_FFFF_FFFF_FFFF * 0xFFFF_FFFF_FFFF_FFFF)
            by (nonlinear_arith)
            requires
                duration_millis <= 0xFFFF_FFFF_FFFF_FFFF,
                fps_num <= 0xFFFF_FFFF_FFFF_FFFF,
        ;
    }
    let frames = (duration_millis as u128) * (fps_num as u128) / (1000 * (fps_den as u128));
    if frames < u32::MAX as u128 {
        frames as u32
    } else {
        u32::MAX
    }
}

} // verus!
