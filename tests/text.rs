use yarl_2::colors::{BLACK, WHITE};
use yarl_2::grid::GridConfig;
use yarl_2::text::TextBuilder;
use yarl_2::window::Window;

fn window(cols: u32, rows: u32) -> Window {
    let config = GridConfig {
        size: (cols, rows),
        padding: (0, 0),
        scale: (1, 1),
        background_color: (0, 0, 0, 255),
        max_instances: 0,
        srgb: false,
    };
    Window::new(config, &vec![(128, 128), (128, 128)]).unwrap()
}

#[test]
fn builder_counts_utf8_bytes() {
    let t = TextBuilder::create().text("héllo").fg((1, 1, 1, 1)).text("ab");
    assert_eq!(t.len(), 8);
    assert_eq!(t.segments.len(), 2);
    assert_eq!(TextBuilder::create().len(), 0);
}

#[test]
fn builder_segments_take_the_current_pen() {
    let t = TextBuilder::create().text("a").fg((1, 2, 3, 4)).bg((5, 6, 7, 8)).set(1).text("b");
    assert_eq!(t.segments[0].fg, WHITE);
    assert_eq!(t.segments[0].bg, BLACK);
    assert_eq!(t.segments[0].set, 0);
    assert_eq!(t.segments[1].text, "b");
    assert_eq!(t.segments[1].fg, (1, 2, 3, 4));
    assert_eq!(t.segments[1].bg, (5, 6, 7, 8));
    assert_eq!(t.segments[1].set, 1);
}

#[test]
fn print_wraps_past_width_end() {
    let mut w = window(10, 10);
    let t = TextBuilder::create().text("abcdef");
    let end = t.print(&mut w, (1, 1), 2, 0);
    assert_eq!(w.cell_at(1, 1).unwrap().glyph, b'a');
    assert_eq!(w.cell_at(2, 1).unwrap().glyph, b'b');
    assert_eq!(w.cell_at(3, 1).unwrap().glyph, b'c');
    assert_eq!(w.cell_at(0, 2).unwrap().glyph, b'd');
    assert_eq!(w.cell_at(1, 2).unwrap().glyph, b'e');
    assert_eq!(w.cell_at(2, 2).unwrap().glyph, b'f');
    assert_eq!(end, (3, 2));
    assert_eq!(w.cell_at(1, 1).unwrap().fg, WHITE);
    assert_eq!(w.cell_at(1, 1).unwrap().bg, BLACK);
}

#[test]
fn print_sub_darkens_and_makes_opaque() {
    let mut w = window(10, 10);
    let t = TextBuilder::create().fg((100, 50, 10, 0)).bg((5, 5, 5, 5)).set(1).text("x");
    t.print_sub(&mut w, (0, 0), 9, (20, 20, 20, 0), 0);
    let c = w.cell_at(0, 0).unwrap();
    assert_eq!(c.fg, (80, 30, 0, 255));
    assert_eq!(c.bg, (0, 0, 0, 255));
    assert_eq!(c.set, 1);
}

#[test]
fn print_sub_cutoff_stops_at_the_cutoff_row() {
    let mut w = window(10, 10);
    let t = TextBuilder::create().text("abcd").text("ef");
    let end = t.print_sub_cutoff(&mut w, (0, 0), 0, (0, 0, 0, 0), 0, Some(2));
    assert_eq!(w.cell_at(0, 0).unwrap().glyph, b'a');
    assert_eq!(w.cell_at(1, 0).unwrap().glyph, b'b');
    assert_eq!(w.cell_at(0, 1).unwrap().glyph, b'c');
    assert_eq!(w.cell_at(1, 1).unwrap().glyph, b'd');
    assert_eq!(w.cell_at(0, 2).unwrap().glyph, 0);
    assert_eq!(end, (0, 2));
}

#[test]
fn unencodable_text_still_colours_its_cell() {
    let mut w = window(10, 10);
    let t = TextBuilder::create().text("Ą");
    t.print(&mut w, (0, 0), 9, 0);
    let c = w.cell_at(0, 0).unwrap();
    assert_eq!(c.glyph, 0);
    assert_eq!(c.fg, WHITE);
}
