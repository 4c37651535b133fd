//! Composing coloured text from segments and printing it with simple column
//! wrapping.
use vstd::prelude::*;
use vstd::std_specs::iter::IteratorSpec;

use crate::codec::{cp437_glyph, encode};
use crate::colors::{BLACK, TRANSPARENT, WHITE};
use crate::grid::GridState;
use crate::window::Window;
use crate::Col;

verus! {

/// A text segment used by `TextBuilder`.
pub struct TextSegment {
    pub text: String,
    pub fg: Col,
    pub bg: Col,
    pub set: u8,
}

/// Builds text out of segments with their own colours and font, and prints it
/// with wrapping.
pub struct TextBuilder {
    pub segments: Vec<TextSegment>,
    fg: Col,
    bg: Col,
    set: u8,
}

/// One character to print, with its foreground, background and font.
pub type TextEntry = (char, Col, Col, u8);

/// The characters of one segment, each with the segment's attributes.
pub open spec fn segment_entries(seg: TextSegment) -> Seq<TextEntry> {
    Seq::new(seg.text@.len(), |i: int| (seg.text@[i], seg.fg, seg.bg, seg.set))
}

/// The characters of all segments, in order.
pub open spec fn entries(segs: Seq<TextSegment>) -> Seq<TextEntry>
    decreases segs.len(),
{
    if segs.len() == 0 {
        Seq::empty()
    } else {
        entries(segs.drop_last()) + segment_entries(segs.last())
    }
}

/// The number of UTF-8 bytes of all segments' texts.
pub open spec fn text_bytes(segs: Seq<TextSegment>) -> nat
    decreases segs.len(),
{
    if segs.len() == 0 {
        0
    } else {
        text_bytes(segs.drop_last()) + vstd::utf8::encode_utf8(segs.last().text@).len()
    }
}

/// `a` darkened by `b`: each colour channel saturating at zero, fully opaque.
pub open spec fn darken(a: Col, b: Col) -> Col {
    (
        if a.0 >= b.0 { (a.0 - b.0) as u8 } else { 0 },
        if a.1 >= b.1 { (a.1 - b.1) as u8 } else { 0 },
        if a.2 >= b.2 { (a.2 - b.2) as u8 } else { 0 },
        255,
    )
}

/// Where printing stands: the grid, the cursor, and whether the cutoff row
/// was reached.
pub struct TextCursor {
    pub grid: GridState,
    pub x: int,
    pub y: int,
    pub stopped: bool,
}

/// How wrapped printing is laid out.
pub struct WrapLayout {
    pub width_end: int,
    pub col_sub: Col,
    pub return_x: int,
    pub cutoff_y: Option<i32>,
}

/// The layout that the printing functions are given.
pub open spec fn wrap_layout(width_end: i32, col_sub: Col, return_x: i32, cutoff_y: Option<i32>) -> WrapLayout {
    WrapLayout { width_end: width_end as int, col_sub, return_x: return_x as int, cutoff_y }
}

/// The cursor at `pos` on grid `g`, before anything is printed.
pub open spec fn start_cursor(g: GridState, pos: (i32, i32)) -> TextCursor {
    TextCursor { grid: g, x: pos.0 as int, y: pos.1 as int, stopped: false }
}

/// Printing one character: unless the cutoff row is reached, the cell under
/// the cursor gets the darkened colours, the character's glyph (if it has
/// one) and the font; then the cursor moves right, or back to `return_x` on
/// the next row once it is past `width_end`.
pub open spec fn text_step(c: TextCursor, e: TextEntry, l: WrapLayout) -> TextCursor {
    if c.stopped || (l.cutoff_y matches Some(limit) && c.y >= limit) {
        TextCursor { stopped: true, ..c }
    } else {
        TextCursor {
            grid: c.grid.paint_at(c.x, c.y, Some(darken(e.1, l.col_sub)), Some(darken(e.2, l.col_sub)), cp437_glyph(e.0), Some(e.3)),
            x: if c.x > l.width_end { l.return_x } else { c.x + 1 },
            y: if c.x > l.width_end { c.y + 1 } else { c.y },
            stopped: false,
        }
    }
}

/// Printing all of `es` in turn.
pub open spec fn text_walk(c: TextCursor, es: Seq<TextEntry>, l: WrapLayout) -> TextCursor
    decreases es.len(),
{
    if es.len() == 0 {
        c
    } else {
        text_step(text_walk(c, es.drop_last(), l), es.last(), l)
    }
}

fn darken_col(a: Col, b: Col) -> (r: Col)
    ensures
        r == darken(a, b),
{
    (
        if a.0 >= b.0 { a.0 - b.0 } else { 0 },
        if a.1 >= b.1 { a.1 - b.1 } else { 0 },
        if a.2 >= b.2 { a.2 - b.2 } else { 0 },
        255,
    )
}

impl TextBuilder {
    /// The segments so far.
    pub closed spec fn segs(&self) -> Seq<TextSegment> {
        self.segments@
    }

    /// The foreground that the next segment gets.
    pub closed spec fn pen_fg(&self) -> Col {
        self.fg
    }

    /// The background that the next segment gets.
    pub closed spec fn pen_bg(&self) -> Col {
        self.bg
    }

    /// The font that the next segment gets.
    pub closed spec fn pen_set(&self) -> u8 {
        self.set
    }

    /// The number of UTF-8 bytes of all segments.
    pub fn len(&self) -> (r: usize)
        requires
            text_bytes(self.segs()) <= usize::MAX,
        ensures
            r == text_bytes(self.segs()),
    {
        let mut acc: usize = 0;
        let mut i: usize = 0;
        while i < self.segments.len()
            invariant
                i <= self.segments@.len(),
                text_bytes(self.segments@) <= usize::MAX,
                acc == text_bytes(self.segments@.subrange(0, i as int)),
            decreases self.segments@.len() - i,
        {
            proof {
                lemma_text_bytes_prefix(self.segments@, i as int + 1);
                assert(self.segments@.subrange(0, i + 1).drop_last() =~= self.segments@.subrange(0, i as int));
            }
            acc = acc + self.segments[i].text.as_str().len();
            i = i + 1;
        }
        proof {
            assert(self.segments@.subrange(0, i as int) =~= self.segments@);
        }
        acc
    }

    /// An empty builder that writes white on black in font 0.
    pub fn create() -> (r: Self)
        ensures
            r.segs().len() == 0,
            r.pen_fg() == WHITE,
            r.pen_bg() == BLACK,
            r.pen_set() == 0,
    {
        TextBuilder { segments: Vec::new(), fg: WHITE, bg: BLACK, set: 0 }
    }

    /// Appends a segment of `text` with the current colours and font.
    pub fn text(self, text: &str) -> (r: Self)
        ensures
            r.segs() == self.segs().push(
                TextSegment { text: r.segs().last().text, fg: self.pen_fg(), bg: self.pen_bg(), set: self.pen_set() },
            ),
            r.segs().last().text@ == text@,
            r.pen_fg() == self.pen_fg(),
            r.pen_bg() == self.pen_bg(),
            r.pen_set() == self.pen_set(),
    {
        let mut me = self;
        let seg = TextSegment { text: text.to_owned(), fg: me.fg, bg: me.bg, set: me.set };
        me.segments.push(seg);
        me
    }

    /// Sets the foreground that the next segments get.
    pub fn fg(self, fg: Col) -> (r: Self)
        ensures
            r.segs() == self.segs(),
            r.pen_fg() == fg,
            r.pen_bg() == self.pen_bg(),
            r.pen_set() == self.pen_set(),
    {
        let mut me = self;
        me.fg = fg;
        me
    }

    /// Sets the background that the next segments get.
    pub fn bg(self, bg: Col) -> (r: Self)
        ensures
            r.segs() == self.segs(),
            r.pen_fg() == self.pen_fg(),
            r.pen_bg() == bg,
            r.pen_set() == self.pen_set(),
    {
        let mut me = self;
        me.bg = bg;
        me
    }

    /// Sets the font that the next segments get.
    pub fn set(self, set: u8) -> (r: Self)
        ensures
            r.segs() == self.segs(),
            r.pen_fg() == self.pen_fg(),
            r.pen_bg() == self.pen_bg(),
            r.pen_set() == set,
    {
        let mut me = self;
        me.set = set;
        me
    }
}

impl TextBuilder {
    /// Every segment with text has a font that `layers` fonts can show.
    pub open spec fn fonts_below(&self, layers: nat) -> bool {
        forall|i: int|
            0 <= i < self.segs().len() && self.segs()[i].text@.len() > 0 ==> (#[trigger] self.segs()[i].set as nat)
                < layers
    }

    /// Prints the segments from `pos` on, one cell per character, with their
    /// colours darkened by `col_sub` (alpha made opaque) and their fonts. The
    /// cursor moves right, and back to `return_x` one row down once it has
    /// passed `width_end`. Printing stops for good when the cursor's row
    /// reaches `cutoff_y`. Returns where the cursor ends.
    pub fn print_sub_cutoff(
        &self,
        window: &mut Window,
        pos: (i32, i32),
        width_end: i32,
        col_sub: Col,
        return_x: i32,
        cutoff_y: Option<i32>,
    ) -> (r: (i32, i32))
        requires
            old(window).wf(),
            self.fonts_below(old(window)@.layers),
            width_end < i32::MAX,
            pos.1 + entries(self.segs()).len() <= i32::MAX,
        ensures
            final(window).wf(),
            final(window)@ == text_walk(
                start_cursor(old(window)@, pos),
                entries(self.segs()),
                wrap_layout(width_end, col_sub, return_x, cutoff_y),
            ).grid,
            r.0 as int == text_walk(
                start_cursor(old(window)@, pos),
                entries(self.segs()),
                wrap_layout(width_end, col_sub, return_x, cutoff_y),
            ).x,
            r.1 as int == text_walk(
                start_cursor(old(window)@, pos),
                entries(self.segs()),
                wrap_layout(width_end, col_sub, return_x, cutoff_y),
            ).y,
    {
        let ghost l = wrap_layout(width_end, col_sub, return_x, cutoff_y);
        let ghost start = start_cursor(window@, pos);
        let ghost segs = self.segments@;
        let ghost mut done: Seq<TextEntry> = Seq::empty();
        let mut x = pos.0;
        let mut y = pos.1;
        let mut stopped = false;
        let mut si: usize = 0;
        proof {
            assert(segs.subrange(0, 0) =~= Seq::<TextSegment>::empty());
        }
        while si < self.segments.len()
            invariant
                segs == self.segments@,
                window.wf(),
                window@.layers == start.grid.layers,
                self.fonts_below(start.grid.layers),
                width_end < i32::MAX,
                pos.1 + entries(segs).len() <= i32::MAX,
                l == wrap_layout(width_end, col_sub, return_x, cutoff_y),
                si <= segs.len(),
                done == entries(segs.subrange(0, si as int)),
                y <= pos.1 + done.len(),
                text_walk(start, done, l) == (TextCursor { grid: window@, x: x as int, y: y as int, stopped }),
            decreases segs.len() - si,
        {
            let seg = &self.segments[si];
            let mut chars = seg.text.as_str().chars();
            let ghost mut ci: nat = 0;
            let ghost base = done;
            proof {
                assert(segs.subrange(0, si + 1).drop_last() =~= segs.subrange(0, si as int));
                assert(segs.subrange(0, si + 1).last() == seg);
                lemma_entries_prefix_len(segs, si + 1);
                assert(done =~= base + segment_entries(*seg).subrange(0, 0));
            }
            loop
                invariant
                    segs == self.segments@,
                    seg == segs[si as int],
                    si < segs.len(),
                    window.wf(),
                    window@.layers == start.grid.layers,
                    self.fonts_below(start.grid.layers),
                    width_end < i32::MAX,
                    pos.1 + entries(segs).len() <= i32::MAX,
                    l == wrap_layout(width_end, col_sub, return_x, cutoff_y),
                    base == entries(segs.subrange(0, si as int)),
                    base.len() + seg.text@.len() <= entries(segs).len(),
                    ci <= seg.text@.len(),
                    chars.remaining() == seg.text@.subrange(ci as int, seg.text@.len() as int),
                    chars.obeys_prophetic_iter_laws(),
                    done == base + segment_entries(*seg).subrange(0, ci as int),
                    y <= pos.1 + done.len(),
                    text_walk(start, done, l) == (TextCursor { grid: window@, x: x as int, y: y as int, stopped }),
                ensures
                    window.wf(),
                    window@.layers == start.grid.layers,
                    done == base + segment_entries(*seg),
                    y <= pos.1 + done.len(),
                    text_walk(start, done, l) == (TextCursor { grid: window@, x: x as int, y: y as int, stopped }),
                decreases seg.text@.len() - ci,
            {
                let c = match chars.next() {
                    Some(c) => c,
                    None => {
                        proof {
                            assert(seg.text@.subrange(ci as int, seg.text@.len() as int).len() == 0);
                            assert(segment_entries(*seg).subrange(0, ci as int) =~= segment_entries(*seg));
                        }
                        break;
                    },
                };
                let ghost e: TextEntry = (c, seg.fg, seg.bg, seg.set);
                proof {
                    assert(seg.text@.subrange(ci as int, seg.text@.len() as int)[0] == c);
                    assert(segment_entries(*seg)[ci as int] == e);
                    assert(done.push(e).drop_last() =~= done);
                    assert(done.push(e) =~= base + segment_entries(*seg).subrange(0, ci + 1 as int));
                    assert(self.segs()[si as int].text@.len() > 0);
                }
                let ghost before = TextCursor { grid: window@, x: x as int, y: y as int, stopped };
                if !stopped {
                    let hit = match cutoff_y {
                        Some(limit) => y >= limit,
                        None => false,
                    };
                    if hit {
                        stopped = true;
                    } else {
                        let fg = darken_col(seg.fg, col_sub);
                        let bg = darken_col(seg.bg, col_sub);
                        let glyph = encode(c);
                        window.paint(x as i64, y as i64, Some(fg), Some(bg), glyph, Some(seg.set));
                        if x > width_end {
                            x = return_x;
                            y = y + 1;
                        } else {
                            x = x + 1;
                        }
                    }
                }
                proof {
                    assert(text_walk(start, done.push(e), l) == text_step(before, e, l));
                    done = done.push(e);
                    ci = ci + 1;
                }
            }
            proof {
                assert(done == entries(segs.subrange(0, si + 1)));
            }
            si = si + 1;
        }
        proof {
            assert(segs.subrange(0, si as int) =~= segs);
        }
        (x, y)
    }

    /// `print_sub_cutoff` without a cutoff row.
    pub fn print_sub(&self, window: &mut Window, pos: (i32, i32), width_end: i32, col_sub: Col, return_x: i32) -> (r: (
        i32,
        i32,
    ))
        requires
            old(window).wf(),
            self.fonts_below(old(window)@.layers),
            width_end < i32::MAX,
            pos.1 + entries(self.segs()).len() <= i32::MAX,
        ensures
            final(window).wf(),
            final(window)@ == text_walk(
                start_cursor(old(window)@, pos),
                entries(self.segs()),
                wrap_layout(width_end, col_sub, return_x, None),
            ).grid,
            r.0 as int == text_walk(
                start_cursor(old(window)@, pos),
                entries(self.segs()),
                wrap_layout(width_end, col_sub, return_x, None),
            ).x,
            r.1 as int == text_walk(
                start_cursor(old(window)@, pos),
                entries(self.segs()),
                wrap_layout(width_end, col_sub, return_x, None),
            ).y,
    {
        self.print_sub_cutoff(window, pos, width_end, col_sub, return_x, None)
    }

    /// Prints the segments with wrapping and their own colours: from `pos`
    /// on, back to `return_x` on the next row once past `width_end`.
    pub fn print(&self, window: &mut Window, pos: (i32, i32), width_end: i32, return_x: i32) -> (r: (i32, i32))
        requires
            old(window).wf(),
            self.fonts_below(old(window)@.layers),
            width_end < i32::MAX,
            pos.1 + entries(self.segs()).len() <= i32::MAX,
        ensures
            final(window).wf(),
            final(window)@ == text_walk(
                start_cursor(old(window)@, pos),
                entries(self.segs()),
                wrap_layout(width_end, TRANSPARENT, return_x, None),
            ).grid,
            r.0 as int == text_walk(
                start_cursor(old(window)@, pos),
                entries(self.segs()),
                wrap_layout(width_end, TRANSPARENT, return_x, None),
            ).x,
            r.1 as int == text_walk(
                start_cursor(old(window)@, pos),
                entries(self.segs()),
                wrap_layout(width_end, TRANSPARENT, return_x, None),
            ).y,
    {
        self.print_sub(window, pos, width_end, TRANSPARENT, return_x)
    }
}

proof fn lemma_entries_prefix_len(segs: Seq<TextSegment>, n: int)
    requires
        0 <= n <= segs.len(),
    ensures
        entries(segs.subrange(0, n)).len() <= entries(segs).len(),
    decreases segs.len(),
{
    if n < segs.len() {
        assert(segs.drop_last().subrange(0, n) =~= segs.subrange(0, n));
        lemma_entries_prefix_len(segs.drop_last(), n);
    } else {
        assert(segs.subrange(0, n) =~= segs);
    }
}

proof fn lemma_text_bytes_prefix(segs: Seq<TextSegment>, n: int)
    requires
        0 <= n <= segs.len(),
    ensures
        text_bytes(segs.subrange(0, n)) <= text_bytes(segs),
    decreases segs.len(),
{
    if n < segs.len() {
        assert(segs.drop_last().subrange(0, n) =~= segs.subrange(0, n));
        lemma_text_bytes_prefix(segs.drop_last(), n);
    } else {
        assert(segs.subrange(0, n) =~= segs);
    }
}

} // verus!
