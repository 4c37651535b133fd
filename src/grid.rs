//! The grid buffer store: four parallel flat arrays indexed by
//! `x + y * cols`, the floating-glyph pool, and the dirty flag.
use vstd::prelude::*;

use crate::codec::{ch_to_u8, cp437_glyph, encode};
use crate::Col;

verus! {

/// The settings of a grid, fixed when it is created.
#[derive(Clone, Copy, Debug)]
pub struct GridConfig {
    /// columns and rows of the grid
    pub size: (u32, u32),
    /// padding in pixels around the grid; half of it on each side
    pub padding: (u32, u32),
    /// how many device pixels one glyph pixel spans, per axis
    pub scale: (u32, u32),
    /// the colour that fills the surface before the grid is drawn
    pub background_color: Col,
    /// how many floating glyphs can be live at once
    pub max_instances: u32,
    /// whether an sRGB surface format is preferred
    pub srgb: bool,
}

/// What one grid cell holds.
#[derive(Clone, Copy, Debug)]
pub struct Cell {
    pub glyph: u8,
    pub fg: Col,
    pub bg: Col,
    pub set: u8,
}

impl Cell {
    /// The cell that a cleared grid holds everywhere.
    pub open spec fn blank() -> Cell {
        Cell { glyph: 0, fg: (0, 0, 0, 0), bg: (0, 0, 0, 0), set: 0 }
    }

    /// This cell once each given field has been written over it.
    pub open spec fn painted(
        self,
        fg: Option<Col>,
        bg: Option<Col>,
        glyph: Option<u8>,
        set: Option<u8>,
    ) -> Cell {
        Cell {
            glyph: match glyph {
                Some(g) => g,
                None => self.glyph,
            },
            fg: match fg {
                Some(c) => c,
                None => self.fg,
            },
            bg: match bg {
                Some(c) => c,
                None => self.bg,
            },
            set: match set {
                Some(v) => v,
                None => self.set,
            },
        }
    }
}

/// A floating glyph: drawn at a position in cell units that need not be
/// aligned to the grid. The position is kept as the bit patterns of two
/// `f32` values, which only the renderer reads.
#[derive(Clone, Copy, Debug)]
pub struct InstanceData {
    /// bit patterns of the `f32` x and y of the glyph's top left corner
    pub position_bits: [u32; 2],
    /// the font selector, then the glyph index
    pub set_char: [u8; 2],
    pub fg: Col,
    pub bg: Col,
}

impl InstanceData {
    /// A floating glyph showing `ch`, which must have a glyph, in font `set`
    /// at the position whose `f32` bit patterns are `position_bits`.
    pub fn new(ch: char, fg: Col, bg: Col, position_bits: [u32; 2], set: u8) -> (r: Self)
        requires
            cp437_glyph(ch) is Some,
        ensures
            r.set_char[0] == set,
            cp437_glyph(ch) == Some(r.set_char[1]),
            r.fg == fg,
            r.bg == bg,
            r.position_bits == position_bits,
    {
        InstanceData { position_bits, set_char: [set, ch_to_u8(ch)], fg, bg }
    }

    /// Like `new`, or `None` where `ch` has no glyph.
    pub fn from_char(ch: char, fg: Col, bg: Col, position_bits: [u32; 2], set: u8) -> (r: Option<Self>)
        ensures
            r is Some <==> cp437_glyph(ch) is Some,
            r matches Some(d) ==> {
                &&& d.set_char[0] == set
                &&& cp437_glyph(ch) == Some(d.set_char[1])
                &&& d.fg == fg
                &&& d.bg == bg
                &&& d.position_bits == position_bits
            },
    {
        match encode(ch) {
            Some(_) => Some(InstanceData::new(ch, fg, bg, position_bits, set)),
            None => None,
        }
    }
}

/// The four bytes of colour number `i` in a flat RGBA buffer.
pub open spec fn rgba_at(buf: Seq<u8>, i: int) -> Col {
    (buf[4 * i], buf[4 * i + 1], buf[4 * i + 2], buf[4 * i + 3])
}

/// `buf` with colour number `i` replaced by `c`.
pub open spec fn put_rgba(buf: Seq<u8>, i: int, c: Col) -> Seq<u8> {
    buf.update(4 * i, c.0).update(4 * i + 1, c.1).update(4 * i + 2, c.2).update(4 * i + 3, c.3)
}

/// The abstract state of a grid.
pub struct GridState {
    pub config: GridConfig,
    /// width and height in pixels of one glyph of the atlases
    pub glyph_size: (u32, u32),
    /// how many glyph atlases (fonts) there are
    pub layers: nat,
    pub chars: Seq<u8>,
    pub fg: Seq<u8>,
    pub bg: Seq<u8>,
    pub sets: Seq<u8>,
    pub instances: Seq<InstanceData>,
    pub live: nat,
    pub dirty: bool,
}

impl GridState {
    pub open spec fn cols(self) -> nat {
        self.config.size.0 as nat
    }

    pub open spec fn rows(self) -> nat {
        self.config.size.1 as nat
    }

    pub open spec fn wf(self) -> bool {
        &&& self.chars.len() == self.cols() * self.rows()
        &&& self.sets.len() == self.cols() * self.rows()
        &&& self.fg.len() == 4 * (self.cols() * self.rows())
        &&& self.bg.len() == 4 * (self.cols() * self.rows())
        &&& 4 * (self.cols() * self.rows()) <= usize::MAX
        &&& 1 <= self.layers <= 256
        &&& forall|i: int| 0 <= i < self.sets.len() ==> (#[trigger] self.sets[i] as nat) < self.layers
        &&& self.instances.len() == self.config.max_instances
        &&& self.live <= self.instances.len()
    }

    pub open spec fn in_bounds(self, x: int, y: int) -> bool {
        0 <= x < self.cols() && 0 <= y < self.rows()
    }

    /// The flat index of cell `(x, y)`.
    pub open spec fn index(self, x: int, y: int) -> int {
        x + y * self.cols()
    }

    pub open spec fn cell(self, x: int, y: int) -> Cell {
        let i = self.index(x, y);
        Cell { glyph: self.chars[i], fg: rgba_at(self.fg, i), bg: rgba_at(self.bg, i), set: self.sets[i] }
    }

    pub open spec fn with_glyph(self, x: int, y: int, g: u8) -> GridState {
        let i = self.index(x, y);
        GridState { chars: self.chars.update(i, g), dirty: self.dirty || self.chars[i] != g, ..self }
    }

    pub open spec fn with_set(self, x: int, y: int, v: u8) -> GridState {
        let i = self.index(x, y);
        GridState { sets: self.sets.update(i, v), dirty: self.dirty || self.sets[i] != v, ..self }
    }

    pub open spec fn with_fg(self, x: int, y: int, c: Col) -> GridState {
        let i = self.index(x, y);
        GridState { fg: put_rgba(self.fg, i, c), dirty: self.dirty || rgba_at(self.fg, i) != c, ..self }
    }

    pub open spec fn with_bg(self, x: int, y: int, c: Col) -> GridState {
        let i = self.index(x, y);
        GridState { bg: put_rgba(self.bg, i, c), dirty: self.dirty || rgba_at(self.bg, i) != c, ..self }
    }

    /// The state after writing each given field at `(x, y)`, where that cell
    /// lies in the grid.
    pub open spec fn paint_at(
        self,
        x: int,
        y: int,
        fg: Option<Col>,
        bg: Option<Col>,
        glyph: Option<u8>,
        set: Option<u8>,
    ) -> GridState {
        if self.in_bounds(x, y) {
            let s1 = match fg {
                Some(c) => self.with_fg(x, y, c),
                None => self,
            };
            let s2 = match bg {
                Some(c) => s1.with_bg(x, y, c),
                None => s1,
            };
            let s3 = match glyph {
                Some(g) => s2.with_glyph(x, y, g),
                None => s2,
            };
            match set {
                Some(v) => s3.with_set(x, y, v),
                None => s3,
            }
        } else {
            self
        }
    }

    /// Everything but the cells is the same in both states.
    pub open spec fn same_shape(self, other: GridState) -> bool {
        &&& self.config == other.config
        &&& self.glyph_size == other.glyph_size
        &&& self.layers == other.layers
        &&& self.chars.len() == other.chars.len()
        &&& self.fg.len() == other.fg.len()
        &&& self.bg.len() == other.bg.len()
        &&& self.sets.len() == other.sets.len()
        &&& self.instances == other.instances
        &&& self.live == other.live
    }

    /// `new` results from `self` by writing `val(x, y)` into every cell
    /// `(x, y)` of the grid that `region` holds; the dirty flag is raised iff
    /// it was up before or one of those cells changed.
    pub open spec fn repainted(
        self,
        new: GridState,
        region: spec_fn(int, int) -> bool,
        val: spec_fn(int, int) -> Cell,
    ) -> bool {
        &&& new.wf()
        &&& new.same_shape(self)
        &&& forall|x: int, y: int|
            #![trigger new.cell(x, y)]
            self.in_bounds(x, y) ==> new.cell(x, y) == if region(x, y) {
                val(x, y)
            } else {
                self.cell(x, y)
            }
        &&& new.dirty == (self.dirty || exists|x: int, y: int|
            #![trigger self.cell(x, y)]
            self.in_bounds(x, y) && region(x, y) && val(x, y) != self.cell(x, y))
    }

    /// One more floating glyph can be made live.
    pub open spec fn can_add(self) -> bool {
        self.live < self.instances.len()
    }

    /// The state after `d` was appended to the live floating glyphs.
    pub open spec fn with_instance(self, d: InstanceData) -> GridState {
        GridState { instances: self.instances.update(self.live as int, d), live: self.live + 1, dirty: true, ..self }
    }

    /// The state after appending `d` where there is room, and as it was where
    /// there is none.
    pub open spec fn appended(self, d: InstanceData) -> GridState {
        if self.can_add() {
            self.with_instance(d)
        } else {
            self
        }
    }

    /// The state after appending each of `ds` in turn.
    pub open spec fn appended_all(self, ds: Seq<InstanceData>) -> GridState
        decreases ds.len(),
    {
        if ds.len() == 0 {
            self
        } else {
            self.appended_all(ds.drop_last()).appended(ds.last())
        }
    }

    /// The state after no floating glyph is made live any more.
    pub open spec fn instances_reset(self) -> GridState {
        GridState { live: 0, dirty: self.dirty || self.live != 0, ..self }
    }

    /// The state after `clear`.
    pub open spec fn cleared(self) -> GridState {
        GridState {
            chars: Seq::new(self.chars.len(), |i: int| 0u8),
            fg: Seq::new(self.fg.len(), |i: int| 0u8),
            bg: Seq::new(self.bg.len(), |i: int| 0u8),
            sets: Seq::new(self.sets.len(), |i: int| 0u8),
            live: 0,
            dirty: true,
            ..self
        }
    }
}

pub proof fn lemma_index_in_range(cols: nat, rows: nat, x: int, y: int)
    requires
        0 <= x < cols,
        0 <= y < rows,
    ensures
        0 <= x + y * cols < cols * rows,
{
    assert(0 <= x + y * cols < cols * rows) by (nonlinear_arith)
        requires
            0 <= x < cols,
            0 <= y < rows,
    ;
}

pub proof fn lemma_index_injective(cols: nat, x: int, y: int, a: int, b: int)
    requires
        0 <= x < cols,
        0 <= a < cols,
        0 <= y,
        0 <= b,
        x + y * cols == a + b * cols,
    ensures
        x == a,
        y == b,
{
    assert(y == b) by (nonlinear_arith)
        requires
            0 <= x < cols,
            0 <= a < cols,
            0 <= y,
            0 <= b,
            x + y * cols == a + b * cols,
    ;
}


pub(crate) proof fn lemma_cell_distinct(s: GridState, x: int, y: int, a: int, b: int)
    requires
        s.wf(),
        s.in_bounds(x, y),
        s.in_bounds(a, b),
        !(a == x && b == y),
    ensures
        s.index(a, b) != s.index(x, y),
        0 <= s.index(a, b) < s.cols() * s.rows(),
{
    lemma_index_in_range(s.cols(), s.rows(), a, b);
    if s.index(a, b) == s.index(x, y) {
        lemma_index_injective(s.cols(), x, y, a, b);
    }
}

pub(crate) proof fn lemma_with_fg(s: GridState, x: int, y: int, c: Col)
    requires
        s.wf(),
        s.in_bounds(x, y),
    ensures
        s.with_fg(x, y, c).wf(),
        s.with_fg(x, y, c).same_shape(s),
        forall|a: int, b: int|
            #![trigger s.with_fg(x, y, c).cell(a, b)]
            s.in_bounds(a, b) ==> s.with_fg(x, y, c).cell(a, b) == if a == x && b == y {
                Cell { fg: c, ..s.cell(a, b) }
            } else {
                s.cell(a, b)
            },
        s.with_fg(x, y, c).dirty == (s.dirty || s.cell(x, y).fg != c),
{
    let t = s.with_fg(x, y, c);
    lemma_index_in_range(s.cols(), s.rows(), x, y);
    assert forall|a: int, b: int| #![trigger t.cell(a, b)] s.in_bounds(a, b) implies t.cell(a, b)
        == if a == x && b == y {
        Cell { fg: c, ..s.cell(a, b) }
    } else {
        s.cell(a, b)
    } by {
        if !(a == x && b == y) {
            lemma_cell_distinct(s, x, y, a, b);
        }
    }
}

pub(crate) proof fn lemma_with_bg(s: GridState, x: int, y: int, c: Col)
    requires
        s.wf(),
        s.in_bounds(x, y),
    ensures
        s.with_bg(x, y, c).wf(),
        s.with_bg(x, y, c).same_shape(s),
        forall|a: int, b: int|
            #![trigger s.with_bg(x, y, c).cell(a, b)]
            s.in_bounds(a, b) ==> s.with_bg(x, y, c).cell(a, b) == if a == x && b == y {
                Cell { bg: c, ..s.cell(a, b) }
            } else {
                s.cell(a, b)
            },
        s.with_bg(x, y, c).dirty == (s.dirty || s.cell(x, y).bg != c),
{
    let t = s.with_bg(x, y, c);
    lemma_index_in_range(s.cols(), s.rows(), x, y);
    assert forall|a: int, b: int| #![trigger t.cell(a, b)] s.in_bounds(a, b) implies t.cell(a, b)
        == if a == x && b == y {
        Cell { bg: c, ..s.cell(a, b) }
    } else {
        s.cell(a, b)
    } by {
        if !(a == x && b == y) {
            lemma_cell_distinct(s, x, y, a, b);
        }
    }
}

pub(crate) proof fn lemma_with_glyph(s: GridState, x: int, y: int, g: u8)
    requires
        s.wf(),
        s.in_bounds(x, y),
    ensures
        s.with_glyph(x, y, g).wf(),
        s.with_glyph(x, y, g).same_shape(s),
        forall|a: int, b: int|
            #![trigger s.with_glyph(x, y, g).cell(a, b)]
            s.in_bounds(a, b) ==> s.with_glyph(x, y, g).cell(a, b) == if a == x && b == y {
                Cell { glyph: g, ..s.cell(a, b) }
            } else {
                s.cell(a, b)
            },
        s.with_glyph(x, y, g).dirty == (s.dirty || s.cell(x, y).glyph != g),
{
    let t = s.with_glyph(x, y, g);
    lemma_index_in_range(s.cols(), s.rows(), x, y);
    assert forall|a: int, b: int| #![trigger t.cell(a, b)] s.in_bounds(a, b) implies t.cell(a, b)
        == if a == x && b == y {
        Cell { glyph: g, ..s.cell(a, b) }
    } else {
        s.cell(a, b)
    } by {
        if !(a == x && b == y) {
            lemma_cell_distinct(s, x, y, a, b);
        }
    }
}

pub(crate) proof fn lemma_with_set(s: GridState, x: int, y: int, v: u8)
    requires
        s.wf(),
        s.in_bounds(x, y),
        (v as nat) < s.layers,
    ensures
        s.with_set(x, y, v).wf(),
        s.with_set(x, y, v).same_shape(s),
        forall|a: int, b: int|
            #![trigger s.with_set(x, y, v).cell(a, b)]
            s.in_bounds(a, b) ==> s.with_set(x, y, v).cell(a, b) == if a == x && b == y {
                Cell { set: v, ..s.cell(a, b) }
            } else {
                s.cell(a, b)
            },
        s.with_set(x, y, v).dirty == (s.dirty || s.cell(x, y).set != v),
{
    let t = s.with_set(x, y, v);
    lemma_index_in_range(s.cols(), s.rows(), x, y);
    assert forall|i: int| 0 <= i < t.sets.len() implies (#[trigger] t.sets[i] as nat) < t.layers by {
        if i != s.index(x, y) {
            assert(t.sets[i] == s.sets[i]);
        }
    }
    assert forall|a: int, b: int| #![trigger t.cell(a, b)] s.in_bounds(a, b) implies t.cell(a, b)
        == if a == x && b == y {
        Cell { set: v, ..s.cell(a, b) }
    } else {
        s.cell(a, b)
    } by {
        if !(a == x && b == y) {
            lemma_cell_distinct(s, x, y, a, b);
        }
    }
}

/// Writing the given fields at one cell changes that cell alone, and raises
/// the dirty flag iff the cell changed.
pub proof fn lemma_paint_at(
    s: GridState,
    x: int,
    y: int,
    fg: Option<Col>,
    bg: Option<Col>,
    glyph: Option<u8>,
    set: Option<u8>,
)
    requires
        s.wf(),
        set matches Some(v) ==> (v as nat) < s.layers,
    ensures
        ({
            let t = s.paint_at(x, y, fg, bg, glyph, set);
            &&& t.wf()
            &&& t.same_shape(s)
            &&& forall|a: int, b: int|
                #![trigger t.cell(a, b)]
                s.in_bounds(a, b) ==> t.cell(a, b) == if s.in_bounds(x, y) && a == x && b == y {
                    s.cell(a, b).painted(fg, bg, glyph, set)
                } else {
                    s.cell(a, b)
                }
            &&& t.dirty == (s.dirty || (s.in_bounds(x, y) && s.cell(x, y).painted(fg, bg, glyph, set)
                != s.cell(x, y)))
        }),
{
    if s.in_bounds(x, y) {
        let s1 = match fg {
            Some(c) => s.with_fg(x, y, c),
            None => s,
        };
        if let Some(c) = fg {
            lemma_with_fg(s, x, y, c);
        }
        let s2 = match bg {
            Some(c) => s1.with_bg(x, y, c),
            None => s1,
        };
        if let Some(c) = bg {
            lemma_with_bg(s1, x, y, c);
        }
        let s3 = match glyph {
            Some(g) => s2.with_glyph(x, y, g),
            None => s2,
        };
        if let Some(g) = glyph {
            lemma_with_glyph(s2, x, y, g);
        }
        let s4 = match set {
            Some(v) => s3.with_set(x, y, v),
            None => s3,
        };
        if let Some(v) = set {
            lemma_with_set(s3, x, y, v);
        }
        assert(s4 == s.paint_at(x, y, fg, bg, glyph, set));
        let c = s.cell(x, y);
        let p = c.painted(fg, bg, glyph, set);
        assert(s4.cell(x, y) == p);
        assert(s4.dirty == (s.dirty || p != c));
    }
}

/// The cells that `draw_rect` writes: the whole rectangle when `filled`, else
/// its top and bottom rows and its left and right columns.
pub open spec fn rect_region(x: int, y: int, w: int, h: int, filled: bool) -> spec_fn(int, int) -> bool {
    |a: int, b: int|
        if filled {
            x <= a < x + w && y <= b < y + h
        } else {
            (x <= a < x + w && (b == y || b == y + h - 1)) || (y <= b < y + h && (a == x || a == x + w
                - 1))
        }
}

/// Each cell of `s` with the given fields written over it.
pub open spec fn paint_val(
    s: GridState,
    fg: Option<Col>,
    bg: Option<Col>,
    glyph: Option<u8>,
    set: Option<u8>,
) -> spec_fn(int, int) -> Cell {
    |a: int, b: int| s.cell(a, b).painted(fg, bg, glyph, set)
}

/// The grid is unchanged by writing nothing anywhere.
pub proof fn lemma_repainted_nothing(s: GridState, region: spec_fn(int, int) -> bool, val: spec_fn(int, int) -> Cell)
    requires
        s.wf(),
        forall|a: int, b: int| !#[trigger] region(a, b),
    ensures
        s.repainted(s, region, val),
{
}

/// A repainted region may be described by any predicate that agrees with it
/// on the cells of the grid.
pub proof fn lemma_repainted_same_region(
    o: GridState,
    s: GridState,
    r1: spec_fn(int, int) -> bool,
    r2: spec_fn(int, int) -> bool,
    val: spec_fn(int, int) -> Cell,
)
    requires
        o.repainted(s, r1, val),
        forall|a: int, b: int| o.in_bounds(a, b) ==> r1(a, b) == r2(a, b),
    ensures
        o.repainted(s, r2, val),
{
    if exists|a: int, b: int|
        #![trigger o.cell(a, b)]
        o.in_bounds(a, b) && r1(a, b) && val(a, b) != o.cell(a, b) {
        let (a, b) = choose|a: int, b: int|
            #![trigger o.cell(a, b)]
            o.in_bounds(a, b) && r1(a, b) && val(a, b) != o.cell(a, b);
        assert(o.in_bounds(a, b) && r2(a, b) && val(a, b) != o.cell(a, b));
    }
    if exists|a: int, b: int|
        #![trigger o.cell(a, b)]
        o.in_bounds(a, b) && r2(a, b) && val(a, b) != o.cell(a, b) {
        let (a, b) = choose|a: int, b: int|
            #![trigger o.cell(a, b)]
            o.in_bounds(a, b) && r2(a, b) && val(a, b) != o.cell(a, b);
        assert(o.in_bounds(a, b) && r1(a, b) && val(a, b) != o.cell(a, b));
    }
}

/// Writing `val(x, y)` at one more cell extends the repainted region by it.
pub proof fn lemma_repaint_step(
    o: GridState,
    s: GridState,
    region: spec_fn(int, int) -> bool,
    region2: spec_fn(int, int) -> bool,
    val: spec_fn(int, int) -> Cell,
    x: int,
    y: int,
    fg: Option<Col>,
    bg: Option<Col>,
    glyph: Option<u8>,
    set: Option<u8>,
)
    requires
        o.repainted(s, region, val),
        set matches Some(v) ==> (v as nat) < o.layers,
        s.in_bounds(x, y) ==> s.cell(x, y).painted(fg, bg, glyph, set) == val(x, y),
        forall|a: int, b: int| #[trigger] region2(a, b) == (region(a, b) || (a == x && b == y)),
    ensures
        o.repainted(s.paint_at(x, y, fg, bg, glyph, set), region2, val),
{
    lemma_paint_at(s, x, y, fg, bg, glyph, set);
    let t = s.paint_at(x, y, fg, bg, glyph, set);
    assert forall|a: int, b: int| #![trigger t.cell(a, b)] o.in_bounds(a, b) implies t.cell(a, b)
        == if region2(a, b) {
        val(a, b)
    } else {
        o.cell(a, b)
    } by {
        assert(s.in_bounds(a, b));
        assert(region2(a, b) == (region(a, b) || (a == x && b == y)));
    }
    let ex1 = exists|a: int, b: int|
        #![trigger o.cell(a, b)]
        o.in_bounds(a, b) && region(a, b) && val(a, b) != o.cell(a, b);
    let ex2 = exists|a: int, b: int|
        #![trigger o.cell(a, b)]
        o.in_bounds(a, b) && region2(a, b) && val(a, b) != o.cell(a, b);
    if ex1 {
        let (a, b) = choose|a: int, b: int|
            #![trigger o.cell(a, b)]
            o.in_bounds(a, b) && region(a, b) && val(a, b) != o.cell(a, b);
        assert(region2(a, b));
        assert(o.in_bounds(a, b) && region2(a, b) && val(a, b) != o.cell(a, b));
    }
    if ex2 {
        let (a, b) = choose|a: int, b: int|
            #![trigger o.cell(a, b)]
            o.in_bounds(a, b) && region2(a, b) && val(a, b) != o.cell(a, b);
        assert(region2(a, b) == (region(a, b) || (a == x && b == y)));
        if region(a, b) {
            assert(o.in_bounds(a, b) && region(a, b) && val(a, b) != o.cell(a, b));
        }
    }
    if o.in_bounds(x, y) {
        assert(region2(x, y));
        if region(x, y) {
            assert(s.cell(x, y) == val(x, y));
        } else {
            assert(s.cell(x, y) == o.cell(x, y));
            if val(x, y) != o.cell(x, y) {
                assert(o.in_bounds(x, y) && region2(x, y) && val(x, y) != o.cell(x, y));
            }
        }
    }
}

/// After `clear`, every cell of the grid reads as blank (glyph 0, transparent
/// black foreground and background, font selector 0) and no floating glyph
/// is live.
pub proof fn lemma_clear_blanks_every_cell(s: GridState)
    requires
        s.wf(),
    ensures
        s.cleared().wf(),
        s.cleared().live == 0,
        s.cleared().same_shape(GridState { live: 0, ..s }),
        forall|x: int, y: int| #[trigger] s.in_bounds(x, y) ==> s.cleared().cell(x, y) == Cell::blank(),
{
    assert forall|x: int, y: int| #[trigger] s.in_bounds(x, y) implies s.cleared().cell(x, y) == Cell::blank() by {
        lemma_index_in_range(s.cols(), s.rows(), x, y);
    }
}

proof fn lemma_appended_all_fills(s: GridState, ds: Seq<InstanceData>)
    requires
        s.wf(),
        s.live == 0,
        ds.len() <= s.instances.len(),
    ensures
        s.appended_all(ds).wf(),
        s.appended_all(ds).live == ds.len(),
        s.appended_all(ds).instances.len() == s.instances.len(),
        forall|k: int| 0 <= k < ds.len() ==> s.appended_all(ds).instances[k] == ds[k],
    decreases ds.len(),
{
    if ds.len() > 0 {
        let p = s.appended_all(ds.drop_last());
        lemma_appended_all_fills(s, ds.drop_last());
        assert(p.can_add());
        let q = s.appended_all(ds);
        assert forall|k: int| 0 <= k < ds.len() implies q.instances[k] == ds[k] by {
            if k < ds.len() - 1 {
                assert(ds.drop_last()[k] == ds[k]);
            }
        }
    }
}

/// The floating-glyph pool of `max_instances` slots, starting empty: each of
/// `max_instances` appends succeeds, after which the pool is full and one
/// more append fails and changes nothing; after a reset an append succeeds
/// again and lands in slot 0 (where the pool has a slot at all).
pub proof fn lemma_pool_saturates(s: GridState, ds: Seq<InstanceData>, extra: InstanceData)
    requires
        s.wf(),
        s.live == 0,
        ds.len() == s.config.max_instances,
    ensures
        forall|k: int| 0 <= k < ds.len() ==> (#[trigger] s.appended_all(ds.subrange(0, k))).can_add(),
        s.appended_all(ds).live == s.config.max_instances,
        !s.appended_all(ds).can_add(),
        s.appended_all(ds).appended(extra) == s.appended_all(ds),
        s.config.max_instances > 0 ==> s.appended_all(ds).instances_reset().can_add(),
        s.config.max_instances > 0 ==> s.appended_all(ds).instances_reset().appended(extra).live == 1,
        s.config.max_instances > 0 ==> s.appended_all(ds).instances_reset().appended(extra).instances[0] == extra,
{
    lemma_appended_all_fills(s, ds);
    assert forall|k: int| 0 <= k < ds.len() implies (#[trigger] s.appended_all(ds.subrange(0, k))).can_add() by {
        lemma_appended_all_fills(s, ds.subrange(0, k));
    }
}

} // verus!
