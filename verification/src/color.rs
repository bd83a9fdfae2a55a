//! Packed 24-bit RGB colors: three 8-bit channels in one `u32`, with the
//! most-significant byte unused.

use vstd::prelude::*;

verus! {

/// The packed form of three 8-bit channels: red in bits 16..24,
/// green in bits 8..16, blue in bits 0..8.
pub open spec fn pack_rgb(r: u32, g: u32, b: u32) -> u32
    recommends
        r < 256,
        g < 256,
        b < 256,
{
    (r * 0x10000 + g * 0x100 + b) as u32
}

/// Packs three 8-bit channels into one 24-bit color value.
pub fn compose_color(r: u32, g: u32, b: u32) -> (color: u32)
    requires
        r < 256,
        g < 256,
        b < 256,
    ensures
        color == pack_rgb(r, g, b),
        color < 0x1000000,
{
    let mut rgb = r;
    proof {
        assert(rgb << 8 == rgb * 256) by (bit_vector)
            requires
                rgb < 256,
        ;
    }
    rgb = (rgb << 8) + g;
    proof {
        assert(rgb << 8 == rgb * 256) by (bit_vector)
            requires
                rgb < 0x10000,
        ;
    }
    rgb = (rgb << 8) + b;
    rgb
}

/// Splits a packed color into its red, green and blue channels.
pub fn split_rgb(color: u32) -> (channels: (u8, u8, u8))
    ensures
        channels.0 == (color >> 16) & 0xFF,
        channels.1 == (color >> 8) & 0xFF,
        channels.2 == color & 0xFF,
{
    proof {
        assert((color >> 16) & 0xFF < 256 && (color >> 8) & 0xFF < 256 && (color >> 0) & 0xFF
            < 256 && (color >> 0) & 0xFF == color & 0xFF) by (bit_vector);
    }
    (((color >> 8 * 2) & 0xFF) as u8, ((color >> 8 * 1) & 0xFF) as u8, ((color >> 8 * 0)
        & 0xFF) as u8)
}

/// Splitting a packed color recovers exactly the three channels that
/// `compose_color` was given.
pub proof fn lemma_split_inverts_pack(r: u32, g: u32, b: u32)
    requires
        r < 256,
        g < 256,
        b < 256,
    ensures
        (pack_rgb(r, g, b) >> 16) & 0xFF == r,
        (pack_rgb(r, g, b) >> 8) & 0xFF == g,
        pack_rgb(r, g, b) & 0xFF == b,
{
    let c = pack_rgb(r, g, b);
    assert((c >> 16) & 0xFF == r && (c >> 8) & 0xFF == g && c & 0xFF == b) by (bit_vector)
        requires
            r < 256,
            g < 256,
            b < 256,
            c == (r * 0x10000 + g * 0x100 + b) as u32,
    ;
}

} // verus!
