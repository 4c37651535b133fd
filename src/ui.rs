//! Interface pieces drawn through the grid: fill and border styles, the
//! placement of a box's children, labels and buttons.
use vstd::prelude::*;

use crate::codec::encode;
use crate::grid::{paint_val, rect_region, GridState};
use crate::window::{glyph_of, printed, Window};
use crate::Col;

verus! {

/// A border style: what is written on the outline of a box.
pub struct BorderStyle {
    pub char: Option<char>,
    pub fg: Option<Col>,
    pub bg: Option<Col>,
}

impl BorderStyle {
    /// A border that writes nothing, for blank boxes.
    pub fn empty() -> (r: Self)
        ensures
            r.char is None,
            r.fg is None,
            r.bg is None,
    {
        BorderStyle { char: None, fg: None, bg: None }
    }
}

/// How a box is filled: each given field is written over the whole box, then
/// the border over its outline.
pub struct FillStyle {
    pub background_color: Option<Col>,
    pub foreground_color: Option<Col>,
    pub fill_char: Option<char>,
    pub border: BorderStyle,
}

impl Default for FillStyle {
    fn default() -> (r: Self)
        ensures
            r.background_color is None,
            r.foreground_color is None,
            r.fill_char is None,
            r.border.char is None,
            r.border.fg is None,
            r.border.bg is None,
    {
        FillStyle { background_color: None, foreground_color: None, fill_char: None, border: BorderStyle::empty() }
    }
}

impl FillStyle {
    /// Fills the box from `start` up to but not including `end`: the fill
    /// fields over every cell, then the border fields over the outline (rows
    /// `start.1` and `end.1 - 1`, columns `start.0` and `end.0 - 1`).
    pub fn fill(&self, start: (i32, i32), end: (i32, i32), window: &mut Window)
        requires
            old(window).wf(),
        ensures
            final(window).wf(),
            exists|mid: GridState|
                {
                    &&& #[trigger] old(window)@.repainted(
                        mid,
                        rect_region(start.0 as int, start.1 as int, end.0 - start.0, end.1 - start.1, true),
                        paint_val(old(window)@, self.foreground_color, self.background_color, glyph_of(self.fill_char), None),
                    )
                    &&& mid.repainted(
                        final(window)@,
                        rect_region(start.0 as int, start.1 as int, end.0 - start.0, end.1 - start.1, false),
                        paint_val(mid, self.border.fg, self.border.bg, glyph_of(self.border.char), None),
                    )
                },
    {
        let fill_glyph = match self.fill_char {
            Some(c) => encode(c),
            None => None,
        };
        let border_glyph = match self.border.char {
            Some(c) => encode(c),
            None => None,
        };
        let ghost o = window@;
        window.fill_span(
            start.0 as i64,
            start.1 as i64,
            end.0 as i64,
            end.1 as i64,
            true,
            self.foreground_color,
            self.background_color,
            fill_glyph,
            None,
        );
        let ghost mid = window@;
        window.fill_span(
            start.0 as i64,
            start.1 as i64,
            end.0 as i64,
            end.1 as i64,
            false,
            self.border.fg,
            self.border.bg,
            border_glyph,
            None,
        );
        proof {
            assert(o.repainted(
                mid,
                rect_region(start.0 as int, start.1 as int, end.0 - start.0, end.1 - start.1, true),
                paint_val(o, self.foreground_color, self.background_color, glyph_of(self.fill_char), None),
            ));
        }
    }
}

/// How the children of a box are placed.
#[derive(Clone, Copy, Debug)]
pub enum BoxPlacementStyle {
    /// Each child takes the whole box.
    Full,
    /// Each child takes the box less `padding` cells on every side.
    Within { padding: i32 },
    /// Children are stacked downwards, `height` rows each.
    AlignY { height: i32 },
    /// Children are laid side by side, `width` columns each.
    AlignX { width: i32 },
    /// Each child gets an equal share of the box's height (not laid out).
    SplitY,
    /// Each child gets an equal share of the box's width (not laid out).
    SplitX,
}

/// The area, from start up to end, that child `k` of a box gets.
pub open spec fn child_area_spec(style: BoxPlacementStyle, start: (i32, i32), end: (i32, i32), k: int) -> Option<
    ((int, int), (int, int)),
> {
    match style {
        BoxPlacementStyle::Full => Some(((start.0 as int, start.1 as int), (end.0 as int, end.1 as int))),
        BoxPlacementStyle::Within { padding } => Some(
            ((start.0 + padding, start.1 + padding), (end.0 - padding, end.1 - padding)),
        ),
        BoxPlacementStyle::AlignY { height } => Some(
            ((start.0 as int, start.1 + k * height), (end.0 as int, start.1 + (k + 1) * height)),
        ),
        BoxPlacementStyle::AlignX { width } => Some(
            ((start.0 + k * width, start.1 as int), (start.0 + (k + 1) * width, end.1 as int)),
        ),
        BoxPlacementStyle::SplitY => None,
        BoxPlacementStyle::SplitX => None,
    }
}

pub open spec fn fits_i32(v: int) -> bool {
    i32::MIN <= v <= i32::MAX
}

impl BoxPlacementStyle {
    /// The area that child number `k` of a box from `start` to `end` gets;
    /// `None` for the split styles, which place no child, or where a corner
    /// does not fit in `i32`.
    pub fn child_area(&self, start: (i32, i32), end: (i32, i32), k: u32) -> (r: Option<((i32, i32), (i32, i32))>)
        ensures
            match child_area_spec(*self, start, end, k as int) {
                Some(a) => {
                    if fits_i32(a.0.0) && fits_i32(a.0.1) && fits_i32(a.1.0) && fits_i32(a.1.1) {
                        r == Some(((a.0.0 as i32, a.0.1 as i32), (a.1.0 as i32, a.1.1 as i32)))
                    } else {
                        r is None
                    }
                },
                None => r is None,
            },
    {
        let (a0, a1, b0, b1): (i128, i128, i128, i128) = match *self {
            BoxPlacementStyle::Full => (start.0 as i128, start.1 as i128, end.0 as i128, end.1 as i128),
            BoxPlacementStyle::Within { padding } => (
                start.0 as i128 + padding as i128,
                start.1 as i128 + padding as i128,
                end.0 as i128 - padding as i128,
                end.1 as i128 - padding as i128,
            ),
            BoxPlacementStyle::AlignY { height } => {
                proof {
                    lemma_step_bound(k as int, height as int);
                }
                (
                    start.0 as i128,
                    start.1 as i128 + k as i128 * height as i128,
                    end.0 as i128,
                    start.1 as i128 + (k as i128 + 1) * height as i128,
                )
            },
            BoxPlacementStyle::AlignX { width } => {
                proof {
                    lemma_step_bound(k as int, width as int);
                }
                (
                    start.0 as i128 + k as i128 * width as i128,
                    start.1 as i128,
                    start.0 as i128 + (k as i128 + 1) * width as i128,
                    end.1 as i128,
                )
            },
            BoxPlacementStyle::SplitY => {
                return None;
            },
            BoxPlacementStyle::SplitX => {
                return None;
            },
        };
        if i32::MIN as i128 <= a0 && a0 <= i32::MAX as i128 && i32::MIN as i128 <= a1 && a1 <= i32::MAX as i128
            && i32::MIN as i128 <= b0 && b0 <= i32::MAX as i128 && i32::MIN as i128 <= b1 && b1
            <= i32::MAX as i128 {
            Some(((a0 as i32, a1 as i32), (b0 as i32, b1 as i32)))
        } else {
            None
        }
    }
}

proof fn lemma_step_bound(k: int, step: int)
    requires
        0 <= k <= u32::MAX,
        i32::MIN <= step <= i32::MAX,
    ensures
        -0x1_0000_0000_0000_0000 <= k * step <= 0x1_0000_0000_0000_0000,
        -0x1_0000_0000_0000_0000 <= (k + 1) * step <= 0x1_0000_0000_0000_0000,
{
    assert(-0x1_0000_0000_0000_0000 <= k * step <= 0x1_0000_0000_0000_0000) by (nonlinear_arith)
        requires
            0 <= k <= u32::MAX,
            i32::MIN <= step <= i32::MAX,
    ;
    assert(-0x1_0000_0000_0000_0000 <= (k + 1) * step <= 0x1_0000_0000_0000_0000) by (nonlinear_arith)
        requires
            0 <= k <= u32::MAX,
            i32::MIN <= step <= i32::MAX,
    ;
}

/// A one-line text label.
pub struct Label {
    pub foreground_color: Option<Col>,
    pub background_color: Option<Col>,
    pub text: String,
}

impl Default for Label {
    fn default() -> (r: Self)
        ensures
            r.foreground_color is None,
            r.background_color is None,
            r.text@.len() == 0,
    {
        Label { foreground_color: None, background_color: None, text: String::new() }
    }
}

impl Label {
    /// Prints the label's text at `start` with its colours.
    pub fn render(&self, start: (i32, i32), window: &mut Window)
        requires
            old(window).wf(),
        ensures
            final(window).wf(),
            final(window)@ == printed(
                old(window)@,
                start.0 as int,
                start.1 as int,
                self.text@,
                self.foreground_color,
                self.background_color,
                None,
                self.text@.len(),
            ),
    {
        window.print_at(start.0 as i64, start.1 as i64, self.text.as_str(), self.foreground_color, self.background_color);
    }
}

/// A single decorated character.
#[derive(Clone, Copy, PartialEq, Eq)]
pub struct SingleCharDecoration {
    pub fg: Option<Col>,
    pub bg: Option<Col>,
    pub ch: Option<char>,
}

/// How a button shows that it is hovered or pressed.
#[derive(Clone, Copy, Debug)]
pub enum PressedStyle {
    /// Swaps the button's colours.
    Flip,
}

impl Default for PressedStyle {
    fn default() -> (r: Self)
        ensures
            r == PressedStyle::Flip,
    {
        PressedStyle::Flip
    }
}

/// Data that an interface element keeps between frames.
#[derive(Debug)]
pub enum UIDataEntry {
    /// text, such as that of a text input
    Text(String),
    /// a state, such as whether a button is down
    Boolean(bool),
}

/// An event that the interface reports, with the id of its element.
#[derive(Debug)]
pub enum Event {
    Pressed(String),
    Unpressed(String),
}

/// The length in bytes of the UTF-8 text `s`, as `str::len` gives it.
pub open spec fn byte_len(s: Seq<char>) -> usize {
    vstd::utf8::encode_utf8(s).len() as usize
}

/// A button: a text that reacts to the pointer and to the select key.
pub struct Button {
    pub foreground_color: Option<Col>,
    pub background_color: Option<Col>,
    pub text: String,
    pub id: String,
    pub pressed_style: PressedStyle,
    pub keybind: Option<char>,
    pub decoration_left: Option<SingleCharDecoration>,
    pub decoration_right: Option<SingleCharDecoration>,
}

impl Default for Button {
    fn default() -> (r: Self)
        ensures
            r.foreground_color is None,
            r.background_color is None,
            r.text@.len() == 0,
            r.id@.len() == 0,
            r.keybind is None,
            r.decoration_left is None,
            r.decoration_right is None,
    {
        Button {
            foreground_color: None,
            background_color: None,
            text: String::new(),
            id: String::new(),
            pressed_style: PressedStyle::Flip,
            keybind: None,
            decoration_left: None,
            decoration_right: None,
        }
    }
}

/// The state after writing a decoration at `(x, y)`.
pub open spec fn decorate(s: GridState, x: int, y: int, d: Option<SingleCharDecoration>) -> GridState {
    match d {
        Some(n) => s.paint_at(x, y, n.fg, n.bg, glyph_of(n.ch), None),
        None => s,
    }
}

impl Button {
    /// The button is hovered: the pointer is on its row, over its text, or
    /// the button is the selected element.
    pub fn is_hovered(&self, start: (i32, i32), mouse: (i32, i32), selected: Option<&String>) -> (r: bool)
        ensures
            r == ((mouse.0 >= start.0 && mouse.1 == start.1 && mouse.0 < start.0 + byte_len(self.text@))
                || (selected matches Some(sel) && sel@ == self.id@)),
    {
        let len = self.text.as_str().len();
        let over = mouse.0 >= start.0 && mouse.1 == start.1 && (mouse.0 as i128) < start.0 as i128 + len as i128;
        let chosen = match selected {
            Some(sel) => *sel == self.id,
            None => false,
        };
        over || chosen
    }

    /// The event that this frame of the button reports, given whether it was
    /// down at the last frame (if it was shown then) and whether it is down
    /// now: going up reports `Pressed`, going down reports `Unpressed`.
    pub fn button_event(&self, was_down: Option<bool>, down: bool) -> (r: Option<Event>)
        ensures
            was_down == Some(true) && !down ==> (r matches Some(Event::Pressed(i)) && i@ == self.id@),
            was_down == Some(false) && down ==> (r matches Some(Event::Unpressed(i)) && i@ == self.id@),
            !(was_down == Some(true) && !down) && !(was_down == Some(false) && down) ==> r is None,
    {
        match was_down {
            Some(true) => if !down {
                Some(Event::Pressed(self.id.clone()))
            } else {
                None
            },
            Some(false) => if down {
                Some(Event::Unpressed(self.id.clone()))
            } else {
                None
            },
            None => None,
        }
    }

    /// Draws the button at `start`: the left decoration there, the right one
    /// just after the text, then the text with the button's colours, swapped
    /// when `highlight`. The text stands after the left decoration when
    /// highlighted, and one row lower when not.
    pub fn render(&self, start: (i32, i32), window: &mut Window, highlight: bool)
        requires
            old(window).wf(),
        ensures
            final(window).wf(),
            ({
                let off: int = if self.decoration_left is Some { 1 } else { 0 };
                let s1 = decorate(old(window)@, start.0 as int, start.1 as int, self.decoration_left);
                let s2 = decorate(s1, start.0 + off + byte_len(self.text@), start.1 as int, self.decoration_right);
                final(window)@ == if highlight {
                    printed(s2, start.0 + off, start.1 as int, self.text@, self.background_color, self.foreground_color, None, self.text@.len())
                } else {
                    printed(s2, start.0 as int, start.1 + off, self.text@, self.foreground_color, self.background_color, None, self.text@.len())
                }
            }),
    {
        let off: i64 = if self.decoration_left.is_some() { 1 } else { 0 };
        if let Some(n) = self.decoration_left {
            let g = match n.ch {
                Some(c) => encode(c),
                None => None,
            };
            window.paint(start.0 as i64, start.1 as i64, n.fg, n.bg, g, None);
        }
        let len = self.text.as_str().len();
        if let Some(n) = self.decoration_right {
            let g = match n.ch {
                Some(c) => encode(c),
                None => None,
            };
            let wide = start.0 as i128 + off as i128 + len as i128;
            if wide <= i64::MAX as i128 {
                window.paint(wide as i64, start.1 as i64, n.fg, n.bg, g, None);
            } else {
                proof {
                    assert(!window@.in_bounds(wide as int, start.1 as int));
                }
            }
        }
        if highlight {
            window.print_at(start.0 as i64 + off, start.1 as i64, self.text.as_str(), self.background_color, self.foreground_color);
        } else {
            window.print_at(start.0 as i64, start.1 as i64 + off, self.text.as_str(), self.foreground_color, self.background_color);
        }
    }
}

} // verus!
