//! What the renderer needs to know to mirror the grid on the GPU: the byte
//! layout of each cell channel's texture, and which surface format to take.
use vstd::prelude::*;

verus! {

/// One of the four per-cell channels, each kept in a texture of its own.
#[derive(Clone, Copy, Debug, PartialEq, Eq, Structural)]
pub enum Channel {
    Glyph,
    Foreground,
    Background,
    FontSelector,
}

/// Bytes per texel of a channel: one for glyph indices and font selectors,
/// four (RGBA) for colours.
pub open spec fn texel_bytes(c: Channel) -> nat {
    match c {
        Channel::Glyph => 1,
        Channel::Foreground => 4,
        Channel::Background => 4,
        Channel::FontSelector => 1,
    }
}

/// How one channel's buffer maps onto its texture, row by row.
#[derive(Clone, Copy, Debug)]
pub struct ChannelLayout {
    /// texels per row: the grid's columns
    pub width: u32,
    /// rows: the grid's rows
    pub height: u32,
    pub bytes_per_texel: u32,
    pub bytes_per_row: u32,
}

/// The index of the first surface format whose sRGB-ness is the one
/// preferred, else of the first format; `None` where there is no format.
pub fn pick_surface_format(is_srgb: &Vec<bool>, prefer_srgb: bool) -> (r: Option<usize>)
    ensures
        is_srgb@.len() == 0 ==> r is None,
        is_srgb@.len() > 0 ==> (r matches Some(i) && {
            if exists|j: int| 0 <= j < is_srgb@.len() && is_srgb@[j] == prefer_srgb {
                &&& 0 <= i < is_srgb@.len()
                &&& is_srgb@[i as int] == prefer_srgb
                &&& forall|j: int| 0 <= j < i ==> is_srgb@[j] != prefer_srgb
            } else {
                i == 0
            }
        }),
{
    if is_srgb.len() == 0 {
        return None;
    }
    let mut i: usize = 0;
    while i < is_srgb.len()
        invariant
            i <= is_srgb@.len(),
            forall|j: int| 0 <= j < i ==> is_srgb@[j] != prefer_srgb,
        decreases is_srgb@.len() - i,
    {
        if is_srgb[i] == prefer_srgb {
            return Some(i);
        }
        i = i + 1;
    }
    Some(0)
}

} // verus!
