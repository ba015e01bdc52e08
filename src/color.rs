//! Colour arithmetic for the table's fading rows.
use vstd::prelude::*;

verus! {

/// Whether the terminal has a light or a dark background.
#[derive(PartialEq, Eq, Structural, Clone, Copy, Debug)]
pub enum Mode {
    Dark,
    Light,
}

/// Splits `0xRRGGBB` into its three channels; higher bits are ignored.
pub fn hex_to_rgb(hex: u32) -> (r: (u8, u8, u8))
    ensures
        r.0 == (hex / 65536) % 256,
        r.1 == (hex / 256) % 256,
        r.2 == hex % 256,
{
    let r = ((hex >> 16) & 0xFF) as u8;
    let g = ((hex >> 8) & 0xFF) as u8;
    let b = (hex & 0xFF) as u8;
    assert(((hex >> 16) & 0xFF) == (hex / 65536) % 256) by (bit_vector);
    assert(((hex >> 8) & 0xFF) == (hex / 256) % 256) by (bit_vector);
    assert((hex & 0xFF) == hex % 256) by (bit_vector);
    (r, g, b)
}

/// The step (0 to 5) of the 6x6x6 colour cube that a channel falls in.
pub open spec fn cube_step(c: u8) -> int {
    (c as int * 6) / 256
}

/// The nearest-below entry (16 to 231) of the 256-colour palette's colour cube.
pub fn rgb_to_indexed(r: u8, g: u8, b: u8) -> (i: u8)
    ensures
        i == 16 + 36 * cube_step(r) + 6 * cube_step(g) + cube_step(b),
        16 <= i <= 231,
{
    let ri = ((r as u32) * 6 / 256) as u8;
    let gi = ((g as u32) * 6 / 256) as u8;
    let bi = ((b as u32) * 6 / 256) as u8;
    16 + 36 * ri + 6 * gi + bi
}

/// A channel dimmed for a mode: three quarters on a dark background, doubled (at most
/// 255) on a light one.
pub open spec fn dimmed(c: u8, mode: Mode) -> int {
    match mode {
        Mode::Dark => (c as int * 3) / 4,
        Mode::Light => if c as int * 2 > 255 { 255 } else { c as int * 2 },
    }
}

fn dim_channel(c: u8, mode: Mode) -> (r: u8)
    ensures
        r == dimmed(c, mode),
{
    match mode {
        Mode::Dark => ((c as u16) * 3 / 4) as u8,
        Mode::Light => if (c as u16) * 2 > 255 {
            255
        } else {
            ((c as u16) * 2) as u8
        },
    }
}

/// The colour that rows far from the cursor fade towards.
pub fn calculate_dimmed_color(foreground: (u8, u8, u8), color_mode: Mode) -> (r: (u8, u8, u8))
    ensures
        r.0 == dimmed(foreground.0, color_mode),
        r.1 == dimmed(foreground.1, color_mode),
        r.2 == dimmed(foreground.2, color_mode),
{
    (dim_channel(foreground.0, color_mode), dim_channel(foreground.1, color_mode), dim_channel(foreground.2, color_mode))
}

} // verus!
