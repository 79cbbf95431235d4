//! Colour packing for the planet lab's rasteriser.
use vstd::prelude::*;

verus! {

/// The ARGB8 word of an opaque colour with channels `r`, `g`, `b`: alpha
/// 255 in the top byte, then red, green and blue.
pub open spec fn argb8(r: u32, g: u32, b: u32) -> u32 {
    (0xFF00_0000 + r * 0x1_0000 + g * 0x100 + b) as u32
}

/// Packs channels `r`, `g`, `b` (each at most 255) into an opaque ARGB8 word.
pub fn pack_argb8(r: u32, g: u32, b: u32) -> (c: u32)
    requires
        r <= 255,
        g <= 255,
        b <= 255,
    ensures
        c == argb8(r, g, b),
        c == (0xFFu32 << 24u32) | (r << 16u32) | (g << 8u32) | b,
{
    assert((0xFFu32 << 24u32) | (r << 16u32) | (g << 8u32) | b == 0xFF00_0000u32 + r * 0x1_0000u32
        + g * 0x100u32 + b) by (bit_vector)
        requires
            r <= 255,
            g <= 255,
            b <= 255,
    ;
    (0xFFu32 << 24u32) | (r << 16u32) | (g << 8u32) | b
}

/// Packing loses nothing: each channel can be read back from its byte of
/// the word, and the alpha byte is always 255.
pub proof fn lemma_argb8_channels(r: u32, g: u32, b: u32)
    requires
        r <= 255,
        g <= 255,
        b <= 255,
    ensures
        argb8(r, g, b) >> 24u32 == 0xFF,
        (argb8(r, g, b) >> 16u32) & 0xFF == r,
        (argb8(r, g, b) >> 8u32) & 0xFF == g,
        argb8(r, g, b) & 0xFF == b,
{
    let c = argb8(r, g, b);
    assert(c == 0xFF00_0000u32 + r * 0x1_0000u32 + g * 0x100u32 + b);
    assert({
        let c = (0xFF00_0000u32 + r * 0x1_0000u32 + g * 0x100u32 + b) as u32;
        &&& c >> 24u32 == 0xFF
        &&& (c >> 16u32) & 0xFF == r
        &&& (c >> 8u32) & 0xFF == g
        &&& c & 0xFF == b
    }) by (bit_vector)
        requires
            r <= 255,
            g <= 255,
            b <= 255,
    ;
}

} // verus!
