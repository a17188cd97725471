//! Playback and export volume levels.
use vstd::prelude::*;

verus! {

/// Clamps a volume in percent to the supported range `0..=200`.
pub open spec fn clamp_volume(v: int) -> u32 {
    if v < 0 {
        0
    } else if v > 200 {
        200
    } else {
        v as u32
    }
}

/// Volume levels of the audio engine, in percent of the source level.
pub struct AudioPlayer {
    /// Playback volume in percent, `0..=200`.
    pub volume: u32,
    /// Volume applied to exported segments in percent, `0..=200`.
    pub export_volume: u32,
}

impl AudioPlayer {
    /// Both levels start at 100%.
    pub fn new() -> (a: AudioPlayer)
        ensures
            a.volume == 100,
            a.export_volume == 100,
    {
        AudioPlayer { volume: 100, export_volume: 100 }
    }

    /// Sets the playback volume, clamped to `0..=200` percent.
    pub fn set_volume(&mut self, vol: i64)
        ensures
            final(self).volume == clamp_volume(vol as int),
            final(self).export_volume == old(self).export_volume,
    {
        self.volume = clamp_pct(vol);
    }

    /// Sets the export volume, clamped to `0..=200` percent.
    pub fn set_export_volume(&mut self, vol: i64)
        ensures
            final(self).export_volume == clamp_volume(vol as int),
            final(self).volume == old(self).volume,
    {
        self.export_volume = clamp_pct(vol);
    }
}

fn clamp_pct(v: i64) -> (r: u32)
    ensures
        r == clamp_volume(v as int),
{
    if v < 0 {
        0
    } else if v > 200 {
        200
    } else {
        v as u32
    }
}

/// The signed 16-bit sample stored little-endian in bytes `lo`, `hi`.
pub open spec fn le_i16(lo: u8, hi: u8) -> i16 {
    let v = lo + 256 * hi;
    (if v < 32768 { v } else { v - 65536 }) as i16
}

/// Decodes raw signed 16-bit little-endian PCM: one sample per whole pair
/// of bytes (a trailing odd byte is ignored).
pub fn pcm_samples(bytes: &[u8]) -> (r: Vec<i16>)
    ensures
        r@.len() == bytes@.len() / 2,
        forall|i: int| 0 <= i < r@.len() ==> r@[i] == le_i16(bytes@[2 * i], bytes@[2 * i + 1]),
{
    let mut r: Vec<i16> = Vec::new();
    let len = bytes.len();
    let n = len / 2;
    let mut i: usize = 0;
    while i < n
        invariant
            len == bytes@.len(),
            n == bytes@.len() / 2,
            i <= n,
            r@.len() == i,
            forall|j: int| 0 <= j < i ==> r@[j] == le_i16(bytes@[2 * j], bytes@[2 * j + 1]),
        decreases n - i,
    {
        let lo = bytes[2 * i] as i32;
        let hi = bytes[2 * i + 1] as i32;
        let v = lo + 256 * hi;
        let s: i16 = if v < 32768 { v as i16 } else { (v - 65536) as i16 };
        r.push(s);
        i = i + 1;
    }
    r
}

} // verus!
