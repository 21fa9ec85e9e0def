//! The colours in which a front end draws the count on a revealed cell.

use vstd::prelude::*;

verus! {

/// The colour of the count `n` as red, green and blue: the classic
/// Minesweeper colours on a light theme, lighter tints on a dark one, and a
/// grey for 8 and above.
pub open spec fn number_color_spec(n: u8, dark_mode: bool) -> (u8, u8, u8) {
    if n == 1 {
        if dark_mode { (120, 170, 255) } else { (0, 0, 255) }
    } else if n == 2 {
        if dark_mode { (120, 220, 120) } else { (0, 128, 0) }
    } else if n == 3 {
        if dark_mode { (255, 120, 120) } else { (200, 0, 0) }
    } else if n == 4 {
        if dark_mode { (160, 160, 255) } else { (0, 0, 128) }
    } else if n == 5 {
        if dark_mode { (255, 170, 120) } else { (128, 0, 0) }
    } else if n == 6 {
        if dark_mode { (120, 220, 220) } else { (0, 128, 128) }
    } else if n == 7 {
        if dark_mode { (240, 240, 240) } else { (0, 0, 0) }
    } else {
        if dark_mode { (190, 190, 190) } else { (96, 96, 96) }
    }
}

/// The colour in which the count `n` is drawn, as red, green and blue.
pub fn number_color(n: u8, dark_mode: bool) -> (rgb: (u8, u8, u8))
    ensures
        rgb == number_color_spec(n, dark_mode),
{
    match n {
        1 if dark_mode => (120, 170, 255),
        1 => (0, 0, 255),
        2 if dark_mode => (120, 220, 120),
        2 => (0, 128, 0),
        3 if dark_mode => (255, 120, 120),
        3 => (200, 0, 0),
        4 if dark_mode => (160, 160, 255),
        4 => (0, 0, 128),
        5 if dark_mode => (255, 170, 120),
        5 => (128, 0, 0),
        6 if dark_mode => (120, 220, 220),
        6 => (0, 128, 128),
        7 if dark_mode => (240, 240, 240),
        7 => (0, 0, 0),
        _ if dark_mode => (190, 190, 190),
        _ => (96, 96, 96),
    }
}

/// Within each theme, the counts 1 to 8 are drawn in eight different colours.
pub proof fn lemma_counts_have_distinct_colors(a: u8, b: u8, dark_mode: bool)
    requires
        1 <= a <= 8,
        1 <= b <= 8,
        a != b,
    ensures
        number_color_spec(a, dark_mode) != number_color_spec(b, dark_mode),
{
}

} // verus!
