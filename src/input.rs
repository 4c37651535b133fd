//! Input and coordinate mapping: pointer pixels to grid cells, the pixel size
//! of the window, and what a key event does to the held-key sets.
use vstd::prelude::*;

use crate::grid::GridConfig;

verus! {

/// The cell coordinate, on one axis, of pointer pixel `p`: half the padding
/// is taken off, then the result is divided by the scale and by the glyph
/// size and rounded down.
pub open spec fn cell_coord(p: int, padding: int, scale: int, glyph: int) -> int {
    (2 * p - padding) / (2 * (scale * glyph))
}

/// `v` saturated to the range of `i32`.
pub open spec fn saturate_i32(v: int) -> i32 {
    if v < i32::MIN {
        i32::MIN
    } else if v > i32::MAX {
        i32::MAX
    } else {
        v as i32
    }
}

proof fn lemma_product_bound(a: int, b: int, m: int)
    requires
        0 <= a <= m,
        0 <= b <= m,
    ensures
        0 <= a * b <= m * m,
{
    assert(0 <= a * b <= m * m) by (nonlinear_arith)
        requires
            0 <= a <= m,
            0 <= b <= m,
    ;
}

proof fn lemma_floor_div_negative(n: int, d: int, q: int)
    requires
        n < 0,
        d > 0,
        q == (-n + d - 1) / d,
    ensures
        -q == n / d,
{
    let m = -n + d - 1;
    let r = m % d;
    assert(m == d * q + r && 0 <= r < d) by {
        vstd::arithmetic::div_mod::lemma_fundamental_div_mod(m, d);
    }
    assert(d * (-q) <= n && n < d * (-q) + d) by (nonlinear_arith)
        requires
            m == d * q + r,
            0 <= r < d,
            m == -n + d - 1,
    ;
    vstd::arithmetic::div_mod::lemma_fundamental_div_mod(n, d);
    let q2 = n / d;
    let r2 = n % d;
    assert(-q == q2) by (nonlinear_arith)
        requires
            d * (-q) <= n,
            n < d * (-q) + d,
            n == d * q2 + r2,
            0 <= r2 < d,
            d > 0,
    ;
}

/// Maps pointer pixel `p` to a cell coordinate on one axis (see `cell_coord`),
/// saturated to `i32`.
pub fn pointer_axis_to_cell(p: i64, padding: u32, scale: u32, glyph: u32) -> (r: i32)
    requires
        scale > 0,
        glyph > 0,
    ensures
        r == saturate_i32(cell_coord(p as int, padding as int, scale as int, glyph as int)),
{
    let n: i128 = 2 * (p as i128) - padding as i128;
    proof {
        lemma_product_bound(scale as int, glyph as int, 0xffff_ffff);
    }
    let d: i128 = 2 * ((scale as i128) * (glyph as i128));
    assert(d > 0) by (nonlinear_arith)
        requires
            d == 2 * ((scale as int) * (glyph as int)),
            scale > 0,
            glyph > 0,
    ;
    let q: i128 = if n >= 0 {
        n / d
    } else {
        let m: i128 = -n + d - 1;
        let q0: i128 = m / d;
        proof {
            lemma_floor_div_negative(n as int, d as int, q0 as int);
        }
        -q0
    };
    if q < i32::MIN as i128 {
        i32::MIN
    } else if q > i32::MAX as i128 {
        i32::MAX
    } else {
        q as i32
    }
}

/// The pixel size of a window that shows the grid of `config` with glyphs of
/// `glyph_size` pixels: `(cells * glyph + padding) * scale` per axis, or
/// `None` where that does not fit in `u32`.
pub fn window_pixel_size(config: &GridConfig, glyph_size: (u32, u32)) -> (r: Option<(u32, u32)>)
    ensures
        ({
            let w = (config.size.0 * glyph_size.0 + config.padding.0) * config.scale.0;
            let h = (config.size.1 * glyph_size.1 + config.padding.1) * config.scale.1;
            &&& r is Some <==> (w <= u32::MAX && h <= u32::MAX)
            &&& r matches Some(s) ==> s.0 == w && s.1 == h
        }),
{
    proof {
        lemma_product_bound(config.size.0 as int, glyph_size.0 as int, 0xffff_ffff);
        lemma_product_bound(config.size.1 as int, glyph_size.1 as int, 0xffff_ffff);
        lemma_product_bound(
            config.size.0 * glyph_size.0 + config.padding.0,
            config.scale.0 as int,
            0xffff_ffff_ffff_ffff,
        );
        lemma_product_bound(
            config.size.1 * glyph_size.1 + config.padding.1,
            config.scale.1 as int,
            0xffff_ffff_ffff_ffff,
        );
    }
    let w = (config.size.0 as u128 * glyph_size.0 as u128 + config.padding.0 as u128) * config.scale.0 as u128;
    let h = (config.size.1 as u128 * glyph_size.1 as u128 + config.padding.1 as u128) * config.scale.1 as u128;
    if w <= u32::MAX as u128 && h <= u32::MAX as u128 {
        Some((w as u32, h as u32))
    } else {
        None
    }
}

/// The surface size to configure after the window was resized to
/// `width` by `height` pixels; `None` (keep the surface) if either is zero.
pub fn resize_target(width: u32, height: u32) -> (r: Option<(u32, u32)>)
    ensures
        r == (if width > 0 && height > 0 {
            Some((width, height))
        } else {
            None
        }),
{
    if width > 0 && height > 0 {
        Some((width, height))
    } else {
        None
    }
}

/// What one key event does to the held keys and held letters.
#[derive(Clone, Copy, Debug)]
pub struct KeyUpdate {
    /// the character to hand to the game as text input
    pub text_input: Option<char>,
    /// a letter to add to (`true`) or take from (`false`) the held letters
    pub letter: Option<(char, bool)>,
    /// add the physical key to (`true`) or take it from (`false`) the held keys
    pub key: Option<bool>,
}

/// The effect of a key event with the given state and first text character.
/// A press hands its character over as text input, repeats too; only a
/// first press or a release changes the held keys and letters, so a repeat
/// adds nothing again.
pub fn key_update(repeat: bool, pressed: bool, text: Option<char>) -> (r: KeyUpdate)
    ensures
        r.text_input == (if pressed {
            text
        } else {
            None
        }),
        r.letter == (if repeat {
            None
        } else {
            match text {
                Some(c) => Some((c, pressed)),
                None => None,
            }
        }),
        r.key == (if repeat {
            None
        } else {
            Some(pressed)
        }),
{
    let text_input = if pressed {
        text
    } else {
        None
    };
    if repeat {
        KeyUpdate { text_input, letter: None, key: None }
    } else {
        let letter = match text {
            Some(c) => Some((c, pressed)),
            None => None,
        };
        KeyUpdate { text_input, letter, key: Some(pressed) }
    }
}

} // verus!
