//! The grid window: the CPU-side buffers of a grid and the floating-glyph
//! pool, with bounds-checked mutation and write-avoiding dirty tracking.
use vstd::prelude::*;
use vstd::std_specs::iter::IteratorSpec;

use crate::codec::{cp437_glyph, encode};
use crate::grid::{
    lemma_index_in_range, lemma_paint_at, lemma_with_bg, lemma_with_fg, lemma_with_glyph, lemma_with_set,
    put_rgba, rgba_at, Cell, GridConfig, GridState, InstanceData, rect_region, paint_val, lemma_repaint_step,
    lemma_repainted_nothing, lemma_repainted_same_region,
};
use crate::render::{texel_bytes, Channel, ChannelLayout};
use crate::snapshot::{lemma_column_major, Snapshot};
use crate::Col;

verus! {

/// Why a set of glyph atlases cannot back a grid.
#[derive(Clone, Copy, Debug, PartialEq, Eq, Structural)]
pub enum AtlasError {
    /// no atlas was given
    NoFonts,
    /// more atlases than the one-byte font selector can address
    TooManyFonts,
    /// the atlas at `index` is not a grid of 16 by 16 glyphs of whole pixels
    NotAGlyphGrid { index: usize },
    /// the atlas at `index` differs in size from the first one
    SizeMismatch { index: usize },
}

/// An atlas of `size` pixels holds 16 by 16 glyphs of whole, non-empty pixels.
pub open spec fn is_glyph_grid(size: (u32, u32)) -> bool {
    size.0 > 0 && size.1 > 0 && size.0 % 16 == 0 && size.1 % 16 == 0
}

/// Atlas `i` is a glyph grid of the same size as the first.
pub open spec fn atlas_fits(sizes: Seq<(u32, u32)>, i: int) -> bool {
    is_glyph_grid(sizes[i]) && sizes[i] == sizes[0]
}

/// What `validate_atlases` answers for the atlas sizes `sizes`.
pub open spec fn atlas_verdict(sizes: Seq<(u32, u32)>) -> Result<(u32, u32), AtlasError> {
    if sizes.len() == 0 {
        Err(AtlasError::NoFonts)
    } else if sizes.len() > 256 {
        Err(AtlasError::TooManyFonts)
    } else if forall|i: int| 0 <= i < sizes.len() ==> atlas_fits(sizes, i) {
        Ok(((sizes[0].0 / 16) as u32, (sizes[0].1 / 16) as u32))
    } else {
        let k = choose|k: int|
            0 <= k < sizes.len() && !atlas_fits(sizes, k) && forall|i: int|
                0 <= i < k ==> atlas_fits(sizes, i);
        if !is_glyph_grid(sizes[k]) {
            Err(AtlasError::NotAGlyphGrid { index: k as usize })
        } else {
            Err(AtlasError::SizeMismatch { index: k as usize })
        }
    }
}

/// Checks the pixel sizes of the glyph atlases (one per font) and returns the
/// pixel size of one glyph. The first atlas that is no 16 by 16 grid of
/// glyphs, or differs in size from the first, is reported.
pub fn validate_atlases(sizes: &Vec<(u32, u32)>) -> (r: Result<(u32, u32), AtlasError>)
    ensures
        r == atlas_verdict(sizes@),
{
    if sizes.len() == 0 {
        return Err(AtlasError::NoFonts);
    }
    if sizes.len() > 256 {
        return Err(AtlasError::TooManyFonts);
    }
    let first = sizes[0];
    let mut i: usize = 0;
    while i < sizes.len()
        invariant
            0 <= i <= sizes.len(),
            1 <= sizes.len() <= 256,
            first == sizes@[0],
            forall|j: int| 0 <= j < i ==> atlas_fits(sizes@, j),
        decreases sizes.len() - i,
    {
        let d = sizes[i];
        if !(d.0 > 0 && d.1 > 0 && d.0 % 16 == 0 && d.1 % 16 == 0) {
            proof {
                assert(!atlas_fits(sizes@, i as int));
                let k = choose|k: int|
                    0 <= k < sizes@.len() && !atlas_fits(sizes@, k) && forall|j: int|
                        0 <= j < k ==> atlas_fits(sizes@, j);
                lemma_first_misfit_unique(sizes@, k, i as int);
            }
            return Err(AtlasError::NotAGlyphGrid { index: i });
        }
        if d.0 != first.0 || d.1 != first.1 {
            proof {
                assert(!atlas_fits(sizes@, i as int));
                let k = choose|k: int|
                    0 <= k < sizes@.len() && !atlas_fits(sizes@, k) && forall|j: int|
                        0 <= j < k ==> atlas_fits(sizes@, j);
                lemma_first_misfit_unique(sizes@, k, i as int);
            }
            return Err(AtlasError::SizeMismatch { index: i });
        }
        i = i + 1;
    }
    Ok((first.0 / 16, first.1 / 16))
}

proof fn lemma_first_misfit_unique(sizes: Seq<(u32, u32)>, k: int, i: int)
    requires
        0 <= i < sizes.len(),
        !atlas_fits(sizes, i),
        forall|j: int| 0 <= j < i ==> atlas_fits(sizes, j),
        k == choose|k: int|
            0 <= k < sizes.len() && !atlas_fits(sizes, k) && forall|j: int|
                0 <= j < k ==> atlas_fits(sizes, j),
    ensures
        k == i,
{
    assert(0 <= i < sizes.len() && !atlas_fits(sizes, i) && forall|j: int|
        0 <= j < i ==> atlas_fits(sizes, j));
    if k < i {
        assert(atlas_fits(sizes, k));
    } else if k > i {
        assert(atlas_fits(sizes, i));
    }
}

/// The buffer that holds a channel.
pub open spec fn channel_buffer(s: GridState, c: Channel) -> Seq<u8> {
    match c {
        Channel::Glyph => s.chars,
        Channel::Foreground => s.fg,
        Channel::Background => s.bg,
        Channel::FontSelector => s.sets,
    }
}

/// The glyph that an optional character gives, if it has one.
pub open spec fn glyph_of(ch: Option<char>) -> Option<u8> {
    match ch {
        Some(c) => cp437_glyph(c),
        None => None,
    }
}

/// The state after printing character `c` at `(x, y)`: where it has a glyph
/// and the cell lies in the grid, the glyph and each given field are written.
pub open spec fn print_cell(
    s: GridState,
    x: int,
    y: int,
    c: char,
    fg: Option<Col>,
    bg: Option<Col>,
    set: Option<u8>,
) -> GridState {
    match cp437_glyph(c) {
        Some(g) => s.paint_at(x, y, fg, bg, Some(g), set),
        None => s,
    }
}

/// The state after printing the first `n` characters of `text` from `(x, y)`
/// rightwards, one column per character.
pub open spec fn printed(
    s: GridState,
    x: int,
    y: int,
    text: Seq<char>,
    fg: Option<Col>,
    bg: Option<Col>,
    set: Option<u8>,
    n: nat,
) -> GridState
    decreases n,
{
    if n == 0 {
        s
    } else {
        print_cell(printed(s, x, y, text, fg, bg, set, (n - 1) as nat), x + n - 1, y, text[n - 1], fg, bg, set)
    }
}

/// A floating glyph slot that holds nothing yet.
pub open spec fn empty_instance() -> InstanceData {
    InstanceData { position_bits: [0u32, 0u32], set_char: [0u8, 0u8], fg: (0, 0, 0, 0), bg: (0, 0, 0, 0) }
}

/// What the renderer has to do for one frame.
#[derive(Clone, Copy, Debug)]
pub struct FramePlan {
    /// upload every CPU-side buffer before drawing
    pub upload: bool,
    /// the colour that the clear pass fills the surface with
    pub clear_color: Col,
    /// how many floating glyphs the instance pass draws
    pub instance_count: u32,
}

/// The window that rendering goes through: the cells of the grid, the
/// floating glyphs and the dirty flag.
pub struct Window {
    config: GridConfig,
    glyph_size: (u32, u32),
    layers: u32,
    buffer_colors_fg: Vec<u8>,
    buffer_colors_bg: Vec<u8>,
    buffer_chars: Vec<u8>,
    set_buffer: Vec<u8>,
    instances: Vec<InstanceData>,
    instance_count: u32,
    dirty: bool,
}

impl View for Window {
    type V = GridState;

    closed spec fn view(&self) -> GridState {
        GridState {
            config: self.config,
            glyph_size: self.glyph_size,
            layers: self.layers as nat,
            chars: self.buffer_chars@,
            fg: self.buffer_colors_fg@,
            bg: self.buffer_colors_bg@,
            sets: self.set_buffer@,
            instances: self.instances@,
            live: self.instance_count as nat,
            dirty: self.dirty,
        }
    }
}

fn zeroed_bytes(n: usize) -> (r: Vec<u8>)
    ensures
        r@ == Seq::new(n as nat, |i: int| 0u8),
{
    let mut v: Vec<u8> = Vec::new();
    let mut i: usize = 0;
    while i < n
        invariant
            i <= n,
            v@ == Seq::new(i as nat, |j: int| 0u8),
        decreases n - i,
    {
        v.push(0);
        i = i + 1;
        assert(v@ =~= Seq::new(i as nat, |j: int| 0u8));
    }
    v
}

/// Writes colour `c` as colour number `i` of `buf`; tells whether it changed.
fn write_rgba(buf: &mut Vec<u8>, i: usize, c: Col) -> (changed: bool)
    requires
        4 * i + 3 < old(buf)@.len(),
    ensures
        final(buf)@ == put_rgba(old(buf)@, i as int, c),
        changed == (rgba_at(old(buf)@, i as int) != c),
{
    let len = buf.len();
    let b = 4 * i;
    if buf[b] == c.0 && buf[b + 1] == c.1 && buf[b + 2] == c.2 && buf[b + 3] == c.3 {
        assert(buf@ =~= put_rgba(buf@, i as int, c));
        false
    } else {
        buf.set(b, c.0);
        buf.set(b + 1, c.1);
        buf.set(b + 2, c.2);
        buf.set(b + 3, c.3);
        true
    }
}

impl Window {
    pub open spec fn wf(&self) -> bool {
        self@.wf()
    }

    /// Creates the grid for `config`, backed by glyph atlases of the given
    /// pixel sizes (one per font): every cell blank, no floating glyph live,
    /// nothing to upload yet.
    pub fn new(config: GridConfig, atlas_sizes: &Vec<(u32, u32)>) -> (r: Result<Window, AtlasError>)
        requires
            4 * (config.size.0 * config.size.1) <= usize::MAX,
        ensures
            match r {
                Ok(w) => {
                    &&& atlas_verdict(atlas_sizes@) is Ok
                    &&& w.wf()
                    &&& w@ == (GridState {
                        config,
                        glyph_size: atlas_verdict(atlas_sizes@)->Ok_0,
                        layers: atlas_sizes@.len(),
                        chars: Seq::new(config.size.0 as nat * config.size.1 as nat, |i: int| 0u8),
                        fg: Seq::new(4 * (config.size.0 as nat * config.size.1 as nat), |i: int| 0u8),
                        bg: Seq::new(4 * (config.size.0 as nat * config.size.1 as nat), |i: int| 0u8),
                        sets: Seq::new(config.size.0 as nat * config.size.1 as nat, |i: int| 0u8),
                        instances: Seq::new(config.max_instances as nat, |i: int| empty_instance()),
                        live: 0,
                        dirty: false,
                    })
                },
                Err(e) => atlas_verdict(atlas_sizes@) == Err::<(u32, u32), AtlasError>(e),
            },
    {
        let glyph_size = match validate_atlases(atlas_sizes) {
            Ok(g) => g,
            Err(e) => return Err(e),
        };
        let n = config.size.0 as usize * config.size.1 as usize;
        let mut instances: Vec<InstanceData> = Vec::new();
        let mut i: u32 = 0;
        while i < config.max_instances
            invariant
                i <= config.max_instances,
                instances@ == Seq::new(i as nat, |j: int| empty_instance()),
            decreases config.max_instances - i,
        {
            instances.push(
                InstanceData { position_bits: [0, 0], set_char: [0, 0], fg: (0, 0, 0, 0), bg: (0, 0, 0, 0) },
            );
            i = i + 1;
            assert(instances@ =~= Seq::new(i as nat, |j: int| empty_instance()));
        }
        let w = Window {
            config,
            glyph_size,
            layers: atlas_sizes.len() as u32,
            buffer_colors_fg: zeroed_bytes(4 * n),
            buffer_colors_bg: zeroed_bytes(4 * n),
            buffer_chars: zeroed_bytes(n),
            set_buffer: zeroed_bytes(n),
            instances,
            instance_count: 0,
            dirty: false,
        };
        Ok(w)
    }

    /// The flat index of `(x, y)`, or `None` outside the grid.
    fn index_of(&self, x: i64, y: i64) -> (r: Option<usize>)
        requires
            self.wf(),
        ensures
            match r {
                Some(i) => {
                    &&& self@.in_bounds(x as int, y as int)
                    &&& i as int == self@.index(x as int, y as int)
                    &&& (i as int) < self@.cols() * self@.rows()
                },
                None => !self@.in_bounds(x as int, y as int),
            },
    {
        if x < 0 || y < 0 {
            return None;
        }
        let cols = self.config.size.0 as u64;
        let rows = self.config.size.1 as u64;
        if (x as u64) < cols && (y as u64) < rows {
            proof {
                lemma_index_in_range(self@.cols(), self@.rows(), x as int, y as int);
            }
            let i = x as usize + (y as usize) * (cols as usize);
            Some(i)
        } else {
            None
        }
    }

    /// Sets the foreground colour of cell `(x, y)`; outside the grid it does
    /// nothing. The dirty flag goes up only if the colour changed.
    pub fn set_fg_at(&mut self, x: i64, y: i64, fg: Col)
        requires
            old(self).wf(),
        ensures
            final(self).wf(),
            final(self)@ == if old(self)@.in_bounds(x as int, y as int) {
                old(self)@.with_fg(x as int, y as int, fg)
            } else {
                old(self)@
            },
    {
        if let Some(i) = self.index_of(x, y) {
            proof {
                lemma_with_fg(self@, x as int, y as int, fg);
            }
            if write_rgba(&mut self.buffer_colors_fg, i, fg) {
                self.dirty = true;
            }
        }
    }

    /// Sets the background colour of cell `(x, y)`; outside the grid it does
    /// nothing. The dirty flag goes up only if the colour changed.
    pub fn set_bg_at(&mut self, x: i64, y: i64, bg: Col)
        requires
            old(self).wf(),
        ensures
            final(self).wf(),
            final(self)@ == if old(self)@.in_bounds(x as int, y as int) {
                old(self)@.with_bg(x as int, y as int, bg)
            } else {
                old(self)@
            },
    {
        if let Some(i) = self.index_of(x, y) {
            proof {
                lemma_with_bg(self@, x as int, y as int, bg);
            }
            if write_rgba(&mut self.buffer_colors_bg, i, bg) {
                self.dirty = true;
            }
        }
    }

    /// Sets the font selector of cell `(x, y)`; outside the grid it does
    /// nothing. The selector must name one of the grid's fonts.
    pub fn set_set_at(&mut self, x: i64, y: i64, value: u8)
        requires
            old(self).wf(),
            (value as nat) < old(self)@.layers,
        ensures
            final(self).wf(),
            final(self)@ == if old(self)@.in_bounds(x as int, y as int) {
                old(self)@.with_set(x as int, y as int, value)
            } else {
                old(self)@
            },
    {
        if let Some(i) = self.index_of(x, y) {
            proof {
                lemma_with_set(self@, x as int, y as int, value);
            }
            if self.set_buffer[i] != value {
                self.set_buffer.set(i, value);
                self.dirty = true;
            } else {
                assert(self.set_buffer@ =~= self.set_buffer@.update(i as int, value));
            }
        }
    }

    /// Sets the glyph index of cell `(x, y)` directly, without the codec;
    /// outside the grid it does nothing.
    pub fn set_char_at_bin(&mut self, x: i64, y: i64, character: u8)
        requires
            old(self).wf(),
        ensures
            final(self).wf(),
            final(self)@ == if old(self)@.in_bounds(x as int, y as int) {
                old(self)@.with_glyph(x as int, y as int, character)
            } else {
                old(self)@
            },
    {
        if let Some(i) = self.index_of(x, y) {
            proof {
                lemma_with_glyph(self@, x as int, y as int, character);
            }
            if self.buffer_chars[i] != character {
                self.buffer_chars.set(i, character);
                self.dirty = true;
            } else {
                assert(self.buffer_chars@ =~= self.buffer_chars@.update(i as int, character));
            }
        }
    }

    /// Sets the glyph of cell `(x, y)` to that of `character`; a character
    /// without a glyph, or a cell outside the grid, leaves the grid as it is.
    pub fn set_char_at(&mut self, x: i64, y: i64, character: char)
        requires
            old(self).wf(),
        ensures
            final(self).wf(),
            final(self)@ == match cp437_glyph(character) {
                Some(g) => if old(self)@.in_bounds(x as int, y as int) {
                    old(self)@.with_glyph(x as int, y as int, g)
                } else {
                    old(self)@
                },
                None => old(self)@,
            },
    {
        if let Some(g) = encode(character) {
            self.set_char_at_bin(x, y, g);
        }
    }

    /// Writes each given field at `(x, y)`: foreground, background, glyph,
    /// then font selector.
    pub(crate) fn paint(&mut self, x: i64, y: i64, fg: Option<Col>, bg: Option<Col>, glyph: Option<u8>, set: Option<u8>)
        requires
            old(self).wf(),
            set matches Some(v) ==> (v as nat) < old(self)@.layers,
        ensures
            final(self).wf(),
            final(self)@ == old(self)@.paint_at(x as int, y as int, fg, bg, glyph, set),
    {
        proof {
            lemma_paint_at(self@, x as int, y as int, fg, bg, glyph, set);
        }
        if let Some(c) = fg {
            self.set_fg_at(x, y, c);
        }
        if let Some(c) = bg {
            self.set_bg_at(x, y, c);
        }
        if let Some(g) = glyph {
            self.set_char_at_bin(x, y, g);
        }
        if let Some(v) = set {
            self.set_set_at(x, y, v);
        }
    }

    /// Fills the glyph, colour and font selector buffers with zeroes, makes no
    /// floating glyph live, and marks everything for upload.
    pub fn clear(&mut self)
        requires
            old(self).wf(),
        ensures
            final(self).wf(),
            final(self)@ == old(self)@.cleared(),
    {
        self.dirty = true;
        let n = self.buffer_chars.len();
        self.buffer_chars = zeroed_bytes(n);
        self.set_buffer = zeroed_bytes(n);
        let m = self.buffer_colors_fg.len();
        self.buffer_colors_fg = zeroed_bytes(m);
        self.buffer_colors_bg = zeroed_bytes(m);
        self.instance_count = 0;
    }

    /// Appends a floating glyph after the live ones. Fails, changing nothing,
    /// once all `max_instances` slots are live.
    pub fn add_instance(&mut self, instance: InstanceData) -> (added: bool)
        requires
            old(self).wf(),
        ensures
            final(self).wf(),
            added == old(self)@.can_add(),
            final(self)@ == old(self)@.appended(instance),
    {
        let m = self.instance_count as usize;
        if m < self.instances.len() {
            self.instances.set(m, instance);
            self.dirty = true;
            self.instance_count = self.instance_count + 1;
            true
        } else {
            false
        }
    }

    /// Makes no floating glyph live; the slots keep their stale contents.
    pub fn reset_instances(&mut self)
        requires
            old(self).wf(),
        ensures
            final(self).wf(),
            final(self)@ == old(self)@.instances_reset(),
    {
        if self.instance_count != 0 {
            self.instance_count = 0;
            self.dirty = true;
        }
    }

    /// Writes the given fields over the cells from `(x0, y0)` up to but not
    /// including `(x1, y1)` (their outline unless `filled`).
    pub(crate) fn fill_span(
        &mut self,
        x0: i64,
        y0: i64,
        x1: i64,
        y1: i64,
        filled: bool,
        fg: Option<Col>,
        bg: Option<Col>,
        glyph: Option<u8>,
        set: Option<u8>,
    )
        requires
            old(self).wf(),
            set matches Some(v) ==> (v as nat) < old(self)@.layers,
            -0x1_0000_0000 <= x0 <= 0x1_0000_0000,
            -0x1_0000_0000 <= y0 <= 0x1_0000_0000,
            -0x1_0000_0000 <= x1 <= 0x1_0000_0000,
            -0x1_0000_0000 <= y1 <= 0x1_0000_0000,
        ensures
            old(self)@.repainted(
                final(self)@,
                rect_region(x0 as int, y0 as int, x1 - x0, y1 - y0, filled),
                paint_val(old(self)@, fg, bg, glyph, set),
            ),
    {
        let ghost o = self@;
        let ghost val = paint_val(o, fg, bg, glyph, set);
        proof {
            lemma_repainted_nothing(o, |a: int, b: int| false, val);
        }
        if filled {
            let mut a = x0;
            while a < x1
                invariant
                    o.wf(),
                    val == paint_val(o, fg, bg, glyph, set),
                    set matches Some(v) ==> (v as nat) < o.layers,
                    -0x1_0000_0000 <= x0 <= 0x1_0000_0000 && -0x1_0000_0000 <= y0 <= 0x1_0000_0000,
                    -0x1_0000_0000 <= x1 <= 0x1_0000_0000 && -0x1_0000_0000 <= y1 <= 0x1_0000_0000,
                    x0 <= a <= x1 || (a == x0 && x1 < x0),
                    o.repainted(self@, |p: int, q: int| x0 <= p < a && y0 <= q < y1, val),
                decreases x1 - a,
            {
                let mut b = y0;
                while b < y1
                    invariant
                        o.wf(),
                        val == paint_val(o, fg, bg, glyph, set),
                        set matches Some(v) ==> (v as nat) < o.layers,
                        x0 <= a < x1,
                        y0 <= b <= y1 || (b == y0 && y1 < y0),
                        o.repainted(
                            self@,
                            |p: int, q: int| (x0 <= p < a && y0 <= q < y1) || (p == a && y0 <= q < b),
                            val,
                        ),
                    decreases y1 - b,
                {
                    proof {
                        lemma_repaint_step(
                            o,
                            self@,
                            |p: int, q: int| (x0 <= p < a && y0 <= q < y1) || (p == a && y0 <= q < b),
                            |p: int, q: int| (x0 <= p < a && y0 <= q < y1) || (p == a && y0 <= q < b + 1),
                            val,
                            a as int,
                            b as int,
                            fg,
                            bg,
                            glyph,
                            set,
                        );
                    }
                    self.paint(a, b, fg, bg, glyph, set);
                    b = b + 1;
                }
                proof {
                    lemma_repainted_same_region(
                        o,
                        self@,
                        |p: int, q: int| (x0 <= p < a && y0 <= q < y1) || (p == a && y0 <= q < b),
                        |p: int, q: int| x0 <= p < a + 1 && y0 <= q < y1,
                        val,
                    );
                }
                a = a + 1;
            }
            proof {
                lemma_repainted_same_region(
                    o,
                    self@,
                    |p: int, q: int| x0 <= p < a && y0 <= q < y1,
                    rect_region(x0 as int, y0 as int, x1 - x0, y1 - y0, filled),
                    val,
                );
            }
        } else {
            let mut a = x0;
            while a < x1
                invariant
                    o.wf(),
                    val == paint_val(o, fg, bg, glyph, set),
                    set matches Some(v) ==> (v as nat) < o.layers,
                    -0x1_0000_0000 <= x0 <= 0x1_0000_0000 && -0x1_0000_0000 <= y0 <= 0x1_0000_0000,
                    -0x1_0000_0000 <= x1 <= 0x1_0000_0000 && -0x1_0000_0000 <= y1 <= 0x1_0000_0000,
                    x0 <= a <= x1 || (a == x0 && x1 < x0),
                    o.repainted(self@, |p: int, q: int| x0 <= p < a && (q == y0 || q == y1 - 1), val),
                decreases x1 - a,
            {
                proof {
                    lemma_repaint_step(
                        o,
                        self@,
                        |p: int, q: int| x0 <= p < a && (q == y0 || q == y1 - 1),
                        |p: int, q: int| (x0 <= p < a && (q == y0 || q == y1 - 1)) || (p == a && q == y0),
                        val,
                        a as int,
                        y0 as int,
                        fg,
                        bg,
                        glyph,
                        set,
                    );
                }
                self.paint(a, y0, fg, bg, glyph, set);
                proof {
                    lemma_repaint_step(
                        o,
                        self@,
                        |p: int, q: int| (x0 <= p < a && (q == y0 || q == y1 - 1)) || (p == a && q == y0),
                        |p: int, q: int| x0 <= p < a + 1 && (q == y0 || q == y1 - 1),
                        val,
                        a as int,
                        y1 - 1,
                        fg,
                        bg,
                        glyph,
                        set,
                    );
                }
                self.paint(a, y1 - 1, fg, bg, glyph, set);
                a = a + 1;
            }
            let ghost top = |p: int, q: int| x0 <= p < x1 && (q == y0 || q == y1 - 1);
            proof {
                lemma_repainted_same_region(
                    o,
                    self@,
                    |p: int, q: int| x0 <= p < a && (q == y0 || q == y1 - 1),
                    top,
                    val,
                );
            }
            let mut b = y0;
            while b < y1
                invariant
                    o.wf(),
                    val == paint_val(o, fg, bg, glyph, set),
                    set matches Some(v) ==> (v as nat) < o.layers,
                    -0x1_0000_0000 <= x0 <= 0x1_0000_0000 && -0x1_0000_0000 <= y0 <= 0x1_0000_0000,
                    -0x1_0000_0000 <= x1 <= 0x1_0000_0000 && -0x1_0000_0000 <= y1 <= 0x1_0000_0000,
                    y0 <= b <= y1 || (b == y0 && y1 < y0),
                    top == (|p: int, q: int| x0 <= p < x1 && (q == y0 || q == y1 - 1)),
                    o.repainted(self@, |p: int, q: int| top(p, q) || (y0 <= q < b && (p == x0 || p == x1 - 1)), val),
                decreases y1 - b,
            {
                proof {
                    lemma_repaint_step(
                        o,
                        self@,
                        |p: int, q: int| top(p, q) || (y0 <= q < b && (p == x0 || p == x1 - 1)),
                        |p: int, q: int| top(p, q) || (y0 <= q < b && (p == x0 || p == x1 - 1)) || (p == x0 && q == b),
                        val,
                        x0 as int,
                        b as int,
                        fg,
                        bg,
                        glyph,
                        set,
                    );
                }
                self.paint(x0, b, fg, bg, glyph, set);
                proof {
                    lemma_repaint_step(
                        o,
                        self@,
                        |p: int, q: int| top(p, q) || (y0 <= q < b && (p == x0 || p == x1 - 1)) || (p == x0 && q == b),
                        |p: int, q: int| top(p, q) || (y0 <= q < b + 1 && (p == x0 || p == x1 - 1)),
                        val,
                        x1 - 1,
                        b as int,
                        fg,
                        bg,
                        glyph,
                        set,
                    );
                }
                self.paint(x1 - 1, b, fg, bg, glyph, set);
                b = b + 1;
            }
            proof {
                lemma_repainted_same_region(
                    o,
                    self@,
                    |p: int, q: int| top(p, q) || (y0 <= q < b && (p == x0 || p == x1 - 1)),
                    rect_region(x0 as int, y0 as int, x1 - x0, y1 - y0, filled),
                    val,
                );
            }
        }
    }

    /// Writes the given fields over a rectangle of the grid: every cell of it
    /// when `filled`, else its outline (the rows `y` and `y + height - 1`
    /// across the width, the columns `x` and `x + width - 1` down the height).
    /// Cells outside the grid are skipped; a character without a glyph writes
    /// no glyph.
    pub fn draw_rect(
        &mut self,
        x: i32,
        y: i32,
        width: i32,
        height: i32,
        filled: bool,
        fg: Option<Col>,
        bg: Option<Col>,
        ch: Option<char>,
        set: Option<u8>,
    )
        requires
            old(self).wf(),
            set matches Some(v) ==> (v as nat) < old(self)@.layers,
        ensures
            old(self)@.repainted(
                final(self)@,
                rect_region(x as int, y as int, width as int, height as int, filled),
                paint_val(old(self)@, fg, bg, glyph_of(ch), set),
            ),
    {
        let glyph = match ch {
            Some(c) => encode(c),
            None => None,
        };
        let x0 = x as i64;
        let y0 = y as i64;
        self.fill_span(x0, y0, x0 + width as i64, y0 + height as i64, filled, fg, bg, glyph, set);
    }

    /// Copies the region of `width` columns and `height` rows at `(x, y)`.
    /// The region must end before the grid's last column and last row.
    pub fn take_snapshot(&self, x: u32, y: u32, width: u32, height: u32) -> (s: Snapshot)
        requires
            self.wf(),
            x + width < self@.cols(),
            y + height < self@.rows(),
        ensures
            s.begin == (x, y),
            s.size == (width, height),
            s.captures(self@),
    {
        let ghost g = self@;
        let cols = self.config.size.0 as usize;
        let mut s = Snapshot {
            begin: (x, y),
            size: (width, height),
            fg: Vec::new(),
            bg: Vec::new(),
            set: Vec::new(),
            text: Vec::new(),
        };
        let mut i: u32 = 0;
        while i < width
            invariant
                self.wf(),
                g == self@,
                cols == g.cols(),
                x + width < g.cols(),
                y + height < g.rows(),
                i <= width,
                s.begin == (x, y),
                s.size == (width, height),
                s.text@.len() == i * height,
                s.set@.len() == i * height,
                s.fg@.len() == 4 * (i * height),
                s.bg@.len() == 4 * (i * height),
                forall|p: int, q: int|
                    0 <= p < i && 0 <= q < height ==> #[trigger] s.at(p, q) == g.cell(x + p, y + q),
            decreases width - i,
        {
            let mut j: u32 = 0;
            while j < height
                invariant
                    self.wf(),
                    g == self@,
                    cols == g.cols(),
                    x + width < g.cols(),
                    y + height < g.rows(),
                    i < width,
                    j <= height,
                    s.begin == (x, y),
                    s.size == (width, height),
                    s.text@.len() == i * height + j,
                    s.set@.len() == i * height + j,
                    s.fg@.len() == 4 * (i * height + j),
                    s.bg@.len() == 4 * (i * height + j),
                    forall|p: int, q: int|
                        0 <= p < i && 0 <= q < height ==> #[trigger] s.at(p, q) == g.cell(x + p, y + q),
                    forall|q: int| 0 <= q < j ==> #[trigger] s.at(i as int, q) == g.cell(x + i, y + q),
                decreases height - j,
            {
                proof {
                    lemma_index_in_range(g.cols(), g.rows(), x + i, y + j);
                    lemma_column_major(i as int, j as int, height as int, width as int);
                }
                let idx = (x + i) as usize + (y + j) as usize * cols;
                let ghost before = s;
                s.fg.push(self.buffer_colors_fg[4 * idx]);
                s.fg.push(self.buffer_colors_fg[4 * idx + 1]);
                s.fg.push(self.buffer_colors_fg[4 * idx + 2]);
                s.fg.push(self.buffer_colors_fg[4 * idx + 3]);
                s.bg.push(self.buffer_colors_bg[4 * idx]);
                s.bg.push(self.buffer_colors_bg[4 * idx + 1]);
                s.bg.push(self.buffer_colors_bg[4 * idx + 2]);
                s.bg.push(self.buffer_colors_bg[4 * idx + 3]);
                s.set.push(self.set_buffer[idx]);
                s.text.push(self.buffer_chars[idx]);
                proof {
                    let k = i * height + j;
                    assert forall|p: int, q: int|
                        0 <= p < i && 0 <= q < height implies #[trigger] s.at(p, q) == g.cell(x + p, y + q) by {
                        lemma_column_major(p, q, height as int, i as int);
                        assert(s.at(p, q) == before.at(p, q));
                    }
                    assert forall|q: int| 0 <= q < j + 1 implies #[trigger] s.at(i as int, q) == g.cell(x + i, y + q) by {
                        lemma_column_major(i as int, q, height as int, width as int);
                        if q < j {
                            assert(s.at(i as int, q) == before.at(i as int, q));
                        } else {
                            assert(s.at(i as int, q) == s.entry(k as int));
                        }
                    }
                }
                j = j + 1;
            }
            proof {
                assert((i + 1) * height == i * height + height) by (nonlinear_arith);
                assert forall|p: int, q: int|
                    0 <= p < i + 1 && 0 <= q < height implies #[trigger] s.at(p, q) == g.cell(x + p, y + q) by {
                    if p == i {
                        assert(s.at(i as int, q) == g.cell(x + i, y + q));
                    }
                }
            }
            i = i + 1;
        }
        s
    }

    /// Writes the snapshot back with its first cell at `(x, y)`: glyph, font
    /// selector and colours of every cell, through the bounds-checked setters,
    /// so cells that fall outside the grid are dropped one by one.
    pub fn apply_snapshot(&mut self, snapshot: &Snapshot, x: i32, y: i32)
        requires
            old(self).wf(),
            snapshot.wf(),
            forall|k: int| 0 <= k < snapshot.set@.len() ==> (#[trigger] snapshot.set@[k] as nat) < old(self)@.layers,
        ensures
            old(self)@.repainted(
                final(self)@,
                rect_region(x as int, y as int, snapshot.size.0 as int, snapshot.size.1 as int, true),
                snapshot.val_at(x as int, y as int),
            ),
    {
        let ghost o = self@;
        let ghost val = snapshot.val_at(x as int, y as int);
        let w = snapshot.size.0;
        let h = snapshot.size.1;
        let n = snapshot.text.len();
        let nfg = snapshot.fg.len();
        let nbg = snapshot.bg.len();
        let x0 = x as i64;
        let y0 = y as i64;
        proof {
            lemma_repainted_nothing(o, |p: int, q: int| false, val);
        }
        let mut i: u32 = 0;
        while i < w
            invariant
                o.wf(),
                snapshot.wf(),
                w == snapshot.size.0 && h == snapshot.size.1,
                n == snapshot.text@.len() && nfg == snapshot.fg@.len() && nbg == snapshot.bg@.len(),
                x0 == x as i64 && y0 == y as i64,
                forall|k: int| 0 <= k < snapshot.set@.len() ==> (#[trigger] snapshot.set@[k] as nat) < o.layers,
                val == snapshot.val_at(x as int, y as int),
                i <= w,
                o.repainted(self@, |p: int, q: int| x0 <= p < x0 + i && y0 <= q < y0 + h, val),
            decreases w - i,
        {
            let mut j: u32 = 0;
            while j < h
                invariant
                    o.wf(),
                    snapshot.wf(),
                    w == snapshot.size.0 && h == snapshot.size.1,
                    n == snapshot.text@.len() && nfg == snapshot.fg@.len() && nbg == snapshot.bg@.len(),
                    x0 == x as i64 && y0 == y as i64,
                    forall|k: int| 0 <= k < snapshot.set@.len() ==> (#[trigger] snapshot.set@[k] as nat) < o.layers,
                    val == snapshot.val_at(x as int, y as int),
                    i < w,
                    j <= h,
                    o.repainted(
                        self@,
                        |p: int, q: int| (x0 <= p < x0 + i && y0 <= q < y0 + h) || (p == x0 + i && y0 <= q < y0 + j),
                        val,
                    ),
                decreases h - j,
            {
                proof {
                    lemma_column_major(i as int, j as int, h as int, w as int);
                }
                let k = i as usize * h as usize + j as usize;
                let fg = (snapshot.fg[4 * k], snapshot.fg[4 * k + 1], snapshot.fg[4 * k + 2], snapshot.fg[4 * k + 3]);
                let bg = (snapshot.bg[4 * k], snapshot.bg[4 * k + 1], snapshot.bg[4 * k + 2], snapshot.bg[4 * k + 3]);
                let glyph = snapshot.text[k];
                let set = snapshot.set[k];
                let a = x0 + i as i64;
                let b = y0 + j as i64;
                proof {
                    assert(val(a as int, b as int) == snapshot.at(i as int, j as int));
                    lemma_repaint_step(
                        o,
                        self@,
                        |p: int, q: int| (x0 <= p < x0 + i && y0 <= q < y0 + h) || (p == x0 + i && y0 <= q < y0 + j),
                        |p: int, q: int| (x0 <= p < x0 + i && y0 <= q < y0 + h) || (p == x0 + i && y0 <= q < y0 + j + 1),
                        val,
                        a as int,
                        b as int,
                        Some(fg),
                        Some(bg),
                        Some(glyph),
                        Some(set),
                    );
                }
                self.paint(a, b, Some(fg), Some(bg), Some(glyph), Some(set));
                j = j + 1;
            }
            proof {
                lemma_repainted_same_region(
                    o,
                    self@,
                    |p: int, q: int| (x0 <= p < x0 + i && y0 <= q < y0 + h) || (p == x0 + i && y0 <= q < y0 + j),
                    |p: int, q: int| x0 <= p < x0 + i + 1 && y0 <= q < y0 + h,
                    val,
                );
            }
            i = i + 1;
        }
        proof {
            lemma_repainted_same_region(
                o,
                self@,
                |p: int, q: int| x0 <= p < x0 + i && y0 <= q < y0 + h,
                rect_region(x as int, y as int, w as int, h as int, true),
                val,
            );
        }
    }

    /// Prints `text` from `(x, y)` rightwards, one column per character,
    /// writing the given colours and font selector wherever a glyph is
    /// written. A character without a glyph, or one that falls outside the
    /// grid, writes nothing but still takes its column.
    pub fn print_at_set(
        &mut self,
        x: i64,
        y: i64,
        text: &str,
        fg: Option<Col>,
        bg: Option<Col>,
        set: Option<u8>,
    )
        requires
            old(self).wf(),
            set matches Some(v) ==> (v as nat) < old(self)@.layers,
        ensures
            final(self).wf(),
            final(self)@ == printed(old(self)@, x as int, y as int, text@, fg, bg, set, text@.len()),
    {
        let ghost o = self@;
        let ghost mut i: nat = 0;
        let mut col: i64 = x;
        let mut past_end = false;
        let mut chars = text.chars();
        loop
            invariant
                self.wf(),
                self@.layers == o.layers,
                set matches Some(v) ==> (v as nat) < o.layers,
                i <= text@.len(),
                chars.remaining() == text@.subrange(i as int, text@.len() as int),
                chars.obeys_prophetic_iter_laws(),
                past_end == (x + i > i64::MAX),
                !past_end ==> col == x + i,
                self@ == printed(o, x as int, y as int, text@, fg, bg, set, i),
            ensures
                self.wf(),
                self@ == printed(o, x as int, y as int, text@, fg, bg, set, text@.len()),
            decreases text@.len() - i,
        {
            let c = match chars.next() {
                Some(c) => c,
                None => {
                    proof {
                        assert(text@.subrange(i as int, text@.len() as int).len() == 0);
                    }
                    break;
                },
            };
            proof {
                assert(text@.subrange(i as int, text@.len() as int)[0] == c);
            }
            let ghost prev = self@;
            if !past_end {
                if let Some(g) = encode(c) {
                    self.paint(col, y, fg, bg, Some(g), set);
                }
                if col == i64::MAX {
                    past_end = true;
                } else {
                    col = col + 1;
                }
            } else {
                proof {
                    assert(!prev.in_bounds(x + i, y as int));
                }
            }
            proof {
                i = i + 1;
            }
        }
    }

    /// Prints `text` from `(x, y)` rightwards with the given colours, leaving
    /// font selectors as they are.
    pub fn print_at(&mut self, x: i64, y: i64, text: &str, fg: Option<Col>, bg: Option<Col>)
        requires
            old(self).wf(),
        ensures
            final(self).wf(),
            final(self)@ == printed(old(self)@, x as int, y as int, text@, fg, bg, None, text@.len()),
    {
        self.print_at_set(x, y, text, fg, bg, None);
    }

    /// The same as `draw_rect`.
    pub fn draw_rect_ex(
        &mut self,
        x: i32,
        y: i32,
        width: i32,
        height: i32,
        filled: bool,
        fg: Option<Col>,
        bg: Option<Col>,
        ch: Option<char>,
        set: Option<u8>,
    )
        requires
            old(self).wf(),
            set matches Some(v) ==> (v as nat) < old(self)@.layers,
        ensures
            old(self)@.repainted(
                final(self)@,
                rect_region(x as int, y as int, width as int, height as int, filled),
                paint_val(old(self)@, fg, bg, glyph_of(ch), set),
            ),
    {
        self.draw_rect(x, y, width, height, filled, fg, bg, ch, set);
    }

    /// Starts a frame: says whether the buffers must be uploaded (they changed
    /// since the last frame), with what colour to clear the surface and how
    /// many floating glyphs to draw; the grid is clean afterwards.
    pub fn begin_frame(&mut self) -> (plan: FramePlan)
        requires
            old(self).wf(),
        ensures
            final(self).wf(),
            plan.upload == old(self)@.dirty,
            plan.clear_color == old(self)@.config.background_color,
            plan.instance_count as nat == old(self)@.live,
            final(self)@ == (GridState { dirty: false, ..old(self)@ }),
    {
        let plan = FramePlan {
            upload: self.dirty,
            clear_color: self.config.background_color,
            instance_count: self.instance_count,
        };
        self.dirty = false;
        plan
    }

    /// What cell `(x, y)` holds, or `None` outside the grid.
    pub fn cell_at(&self, x: i64, y: i64) -> (r: Option<Cell>)
        requires
            self.wf(),
        ensures
            r == (if self@.in_bounds(x as int, y as int) {
                Some(self@.cell(x as int, y as int))
            } else {
                None
            }),
    {
        match self.index_of(x, y) {
            Some(i) => Some(
                Cell {
                    glyph: self.buffer_chars[i],
                    fg: (
                        self.buffer_colors_fg[4 * i],
                        self.buffer_colors_fg[4 * i + 1],
                        self.buffer_colors_fg[4 * i + 2],
                        self.buffer_colors_fg[4 * i + 3],
                    ),
                    bg: (
                        self.buffer_colors_bg[4 * i],
                        self.buffer_colors_bg[4 * i + 1],
                        self.buffer_colors_bg[4 * i + 2],
                        self.buffer_colors_bg[4 * i + 3],
                    ),
                    set: self.set_buffer[i],
                },
            ),
            None => None,
        }
    }

    /// The glyph indices, one byte per cell, row by row.
    pub fn chars_buffer(&self) -> (r: &Vec<u8>)
        ensures
            r@ == self@.chars,
    {
        &self.buffer_chars
    }

    /// The foreground colours, four bytes per cell, row by row.
    pub fn fg_buffer(&self) -> (r: &Vec<u8>)
        ensures
            r@ == self@.fg,
    {
        &self.buffer_colors_fg
    }

    /// The background colours, four bytes per cell, row by row.
    pub fn bg_buffer(&self) -> (r: &Vec<u8>)
        ensures
            r@ == self@.bg,
    {
        &self.buffer_colors_bg
    }

    /// The font selectors, one byte per cell, row by row.
    pub fn set_buffer(&self) -> (r: &Vec<u8>)
        ensures
            r@ == self@.sets,
    {
        &self.set_buffer
    }

    /// Every slot of the floating-glyph pool, live or stale.
    pub fn instances(&self) -> (r: &Vec<InstanceData>)
        ensures
            r@ == self@.instances,
    {
        &self.instances
    }

    /// How many floating glyphs are live.
    pub fn instance_count(&self) -> (r: u32)
        ensures
            r as nat == self@.live,
    {
        self.instance_count
    }

    /// Whether the buffers changed since the last upload.
    pub fn is_dirty(&self) -> (r: bool)
        ensures
            r == self@.dirty,
    {
        self.dirty
    }

    pub fn config(&self) -> (r: GridConfig)
        ensures
            r == self@.config,
    {
        self.config
    }

    /// Width and height in pixels of one glyph.
    pub fn glyph_size(&self) -> (r: (u32, u32))
        ensures
            r == self@.glyph_size,
    {
        self.glyph_size
    }

    /// How many fonts the grid was created with.
    pub fn layer_count(&self) -> (r: u32)
        ensures
            r as nat == self@.layers,
    {
        self.layers
    }

    /// The texture layout of a channel: the grid's columns and rows, with
    /// rows of `columns * bytes_per_texel` bytes, so that the channel's buffer
    /// fills the texture exactly. `None` where a row's bytes do not fit in
    /// `u32`.
    pub fn channel_layout(&self, channel: Channel) -> (r: Option<ChannelLayout>)
        requires
            self.wf(),
        ensures
            match r {
                Some(l) => {
                    &&& l.width as nat == self@.cols()
                    &&& l.height as nat == self@.rows()
                    &&& l.bytes_per_texel as nat == texel_bytes(channel)
                    &&& l.bytes_per_row as nat == texel_bytes(channel) * self@.cols()
                    &&& channel_buffer(self@, channel).len() == l.bytes_per_row as nat * l.height as nat
                },
                None => texel_bytes(channel) * self@.cols() > u32::MAX,
            },
    {
        let bpt: u32 = match channel {
            Channel::Glyph => 1,
            Channel::Foreground => 4,
            Channel::Background => 4,
            Channel::FontSelector => 1,
        };
        let cols = self.config.size.0;
        let rows = self.config.size.1;
        if cols as u64 * bpt as u64 > u32::MAX as u64 {
            return None;
        }
        proof {
            let c = self@.cols();
            let n = self@.rows();
            assert(4 * (c * n) == (4 * c) * n) by (nonlinear_arith);
        }
        Some(ChannelLayout { width: cols, height: rows, bytes_per_texel: bpt, bytes_per_row: cols * bpt })
    }
}

} // verus!
