//! Decoding little-endian PCM bytes into signed 16-bit samples.
//!
//! Synthesized audio arrives as raw bytes; writing it under a WAV header
//! means emitting one signed 16-bit sample per little-endian byte pair. The
//! decoding is verified here; the file that receives the samples is the
//! caller's concern. A trailing odd byte carries no full sample and is
//! dropped.

use vstd::prelude::*;

verus! {

/// The signed 16-bit value of a little-endian byte pair.
pub open spec fn i16_from_le(lo: u8, hi: u8) -> i16 {
    if hi < 128 {
        (lo + 256 * hi) as i16
    } else {
        (lo + 256 * hi - 65536) as i16
    }
}

/// Decodes a byte string into the samples it spells, two bytes per sample,
/// little endian.
pub fn le_i16_samples(audio: &[u8]) -> (r: Vec<i16>)
    ensures
        r@.len() == audio@.len() / 2,
        forall|i: int|
            0 <= i < r@.len() ==> r@[i] == i16_from_le(audio@[2 * i], audio@[2 * i + 1]),
{
    let len = audio.len();
    let n = len / 2;
    let mut r: Vec<i16> = Vec::new();
    let mut i: usize = 0;
    while i < n
        invariant
            i <= n,
            len == audio@.len(),
            n == audio@.len() / 2,
            r@.len() == i,
            forall|j: int|
                0 <= j < i ==> r@[j] == i16_from_le(audio@[2 * j], audio@[2 * j + 1]),
        decreases n - i,
    {
        proof {
            assert(2 * i + 1 < audio@.len());
        }
        let lo = audio[2 * i];
        let hi = audio[2 * i + 1];
        let v: i32 = lo as i32 + 256 * (hi as i32);
        let s: i16 = if v < 32768 {
            v as i16
        } else {
            (v - 65536) as i16
        };
        r.push(s);
        i += 1;
    }
    r
}

} // verus!
