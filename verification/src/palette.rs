//! The chart colour palette: twenty distinct colours, as red, green
//! and blue shares of 255, assigned to series in order.

use vstd::prelude::*;

verus! {

/// The palette as a sequence of (red, green, blue) bytes.
pub open spec fn palette_spec() -> Seq<(u8, u8, u8)> {
    seq![
        (230u8, 25u8, 75u8),
        (60u8, 180u8, 75u8),
        (255u8, 225u8, 25u8),
        (0u8, 130u8, 200u8),
        (245u8, 130u8, 48u8),
        (145u8, 30u8, 180u8),
        (70u8, 240u8, 240u8),
        (240u8, 50u8, 230u8),
        (210u8, 255u8, 60u8),
        (250u8, 190u8, 190u8),
        (0u8, 128u8, 128u8),
        (230u8, 190u8, 255u8),
        (170u8, 110u8, 40u8),
        (255u8, 250u8, 200u8),
        (128u8, 0u8, 0u8),
        (170u8, 255u8, 195u8),
        (128u8, 128u8, 0u8),
        (255u8, 215u8, 180u8),
        (0u8, 0u8, 128u8),
        (128u8, 128u8, 128u8),
    ]
}

/// The colour of the `n`-th series: entry `n` of the palette.
pub fn nth_colour(n: usize) -> (c: (u8, u8, u8))
    requires
        n < 20,
    ensures
        c == palette_spec()[n as int],
{
    let c: (u8, u8, u8) = match n {
        0 => (230, 25, 75),  // Red
        1 => (60, 180, 75),  // Green
        2 => (255, 225, 25),  // Yellow
        3 => (0, 130, 200),  // Blue
        4 => (245, 130, 48),  // Orange
        5 => (145, 30, 180),  // Purple
        6 => (70, 240, 240),  // Cyan
        7 => (240, 50, 230),  // Magenta
        8 => (210, 255, 60),  // Lime
        9 => (250, 190, 190),  // Pink
        10 => (0, 128, 128),  // Teal
        11 => (230, 190, 255),  // Lavender
        12 => (170, 110, 40),  // Brown
        13 => (255, 250, 200),  // Beige
        14 => (128, 0, 0),  // Maroon
        15 => (170, 255, 195),  // Mint
        16 => (128, 128, 0),  // Olive
        17 => (255, 215, 180),  // Coral
        18 => (0, 0, 128),  // Navy
        19 => (128, 128, 128),  // Grey
        _ => (0, 0, 0),
    };
    proof {
        assert(c == palette_spec()[n as int]);
    }
    c
}

} // verus!
