//! Decisions around speech playback: the system volume to apply and to read
//! back, and the splitting of received speech bytes into 32-bit samples.

use vstd::prelude::*;
use crate::text::{parse_u32, parse_u32_chars, trim, trim_chars};

verus! {

/// Volume reported when the system volume cannot be read.
pub const FALLBACK_VOLUME: u32 = 50;

/// The system volume to set for a requested percentage: capped at 100.
pub fn set_system_volume(percent: u32) -> (level: u32)
    ensures
        level == if percent > 100 {
            100
        } else {
            percent
        },
{
    if percent > 100 {
        100
    } else {
        percent
    }
}

/// The system volume (0 to 100) read back from what the volume query printed
/// (`None` when the query could not run): the printed number without surrounding
/// whitespace, capped at 100, or 50 when there is no such number.
pub fn get_system_volume(reported: Option<&str>) -> (v: u32)
    ensures
        v == match reported {
            Some(s) => match parse_u32_chars(trim_chars(s@)) {
                Some(n) => if n > 100 {
                    100
                } else {
                    n
                },
                None => FALLBACK_VOLUME,
            },
            None => FALLBACK_VOLUME,
        },
{
    match reported {
        Some(s) => match parse_u32(trim(s)) {
            Some(n) => set_system_volume(n),
            None => FALLBACK_VOLUME,
        },
        None => FALLBACK_VOLUME,
    }
}

/// The consecutive groups of four bytes in `data`; a shorter remainder at the end
/// is dropped.
pub fn sample_words(data: &[u8]) -> (out: Vec<[u8; 4]>)
    ensures
        out@.len() == data@.len() / 4,
        forall|i: int|
            0 <= i < out@.len() ==> #[trigger] out@[i]@ == data@.subrange(4 * i, 4 * i + 4),
{
    let mut out: Vec<[u8; 4]> = Vec::new();
    let len = data.len();
    let n = len / 4;
    let mut i: usize = 0;
    while i < n
        invariant
            len == data@.len(),
            n == data@.len() / 4,
            i <= n,
            out@.len() == i,
            forall|j: int|
                0 <= j < i ==> #[trigger] out@[j]@ == data@.subrange(4 * j, 4 * j + 4),
        decreases n - i,
    {
        assert(4 * i + 4 <= data@.len()) by (nonlinear_arith)
            requires
                i < n,
                n == data@.len() / 4,
        ;
        let b = 4 * i;
        let w = [data[b], data[b + 1], data[b + 2], data[b + 3]];
        assert(w@ =~= data@.subrange(4 * i, 4 * i + 4));
        out.push(w);
        i += 1;
    }
    out
}

} // verus!
