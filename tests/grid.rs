use yarl_2::grid::{GridConfig, InstanceData};
use yarl_2::render::{pick_surface_format, Channel};
use yarl_2::window::{validate_atlases, AtlasError, Window};

fn config(cols: u32, rows: u32, max_instances: u32) -> GridConfig {
    GridConfig {
        size: (cols, rows),
        padding: (16, 16),
        scale: (2, 2),
        background_color: (255, 255, 255, 255),
        max_instances,
        srgb: true,
    }
}

fn window(cols: u32, rows: u32) -> Window {
    Window::new(config(cols, rows, 4), &vec![(128, 128), (128, 128)]).unwrap()
}

fn glyph(w: &Window, x: i64, y: i64) -> u8 {
    w.cell_at(x, y).unwrap().glyph
}

#[test]
fn new_grid_is_blank_and_clean() {
    let w = window(10, 10);
    assert_eq!(w.chars_buffer().len(), 100);
    assert_eq!(w.fg_buffer().len(), 400);
    assert_eq!(w.bg_buffer().len(), 400);
    assert_eq!(w.set_buffer().len(), 100);
    assert_eq!(w.instances().len(), 4);
    assert_eq!(w.instance_count(), 0);
    assert!(!w.is_dirty());
    assert_eq!(w.glyph_size(), (8, 8));
    assert_eq!(w.layer_count(), 2);
    assert!(w.chars_buffer().iter().all(|b| *b == 0));
}

#[test]
fn set_glyph_writes_flat_index_and_dirties_only_on_change() {
    let mut w = window(10, 10);
    w.set_char_at_bin(3, 4, 65);
    assert_eq!(w.chars_buffer()[3 + 4 * 10], 65);
    assert!(w.is_dirty());
    let plan = w.begin_frame();
    assert!(plan.upload);
    assert!(!w.is_dirty());
    w.set_char_at_bin(3, 4, 65);
    assert!(!w.is_dirty());
    w.set_char_at_bin(3, 4, 66);
    assert!(w.is_dirty());
    assert_eq!(glyph(&w, 3, 4), 66);
}

#[test]
fn setters_ignore_cells_outside_the_grid() {
    let mut w = window(10, 10);
    w.set_char_at_bin(10, 0, 7);
    w.set_char_at_bin(-1, 0, 7);
    w.set_fg_at(0, 10, (1, 2, 3, 4));
    w.set_bg_at(-3, -3, (1, 2, 3, 4));
    w.set_set_at(100, 100, 1);
    assert!(!w.is_dirty());
    assert!(w.chars_buffer().iter().all(|b| *b == 0));
    assert!(w.cell_at(10, 0).is_none());
}

#[test]
fn colour_and_font_setters_write_their_cell() {
    let mut w = window(10, 10);
    w.set_fg_at(2, 1, (1, 2, 3, 4));
    w.set_bg_at(2, 1, (5, 6, 7, 8));
    w.set_set_at(2, 1, 1);
    let c = w.cell_at(2, 1).unwrap();
    assert_eq!(c.fg, (1, 2, 3, 4));
    assert_eq!(c.bg, (5, 6, 7, 8));
    assert_eq!(c.set, 1);
    let i = (2 + 1 * 10) * 4;
    assert_eq!(&w.fg_buffer()[i..i + 4], &[1, 2, 3, 4]);
    assert_eq!(&w.bg_buffer()[i..i + 4], &[5, 6, 7, 8]);
    assert_eq!(w.set_buffer()[12], 1);
    w.begin_frame();
    w.set_fg_at(2, 1, (1, 2, 3, 4));
    assert!(!w.is_dirty());
}

#[test]
fn set_char_uses_the_code_page() {
    let mut w = window(10, 10);
    w.set_char_at(0, 0, '☺');
    assert_eq!(glyph(&w, 0, 0), 1);
    w.set_char_at(1, 0, 'Ą');
    assert_eq!(glyph(&w, 1, 0), 0);
}

#[test]
fn clear_blanks_every_cell_and_the_pool() {
    let mut w = window(10, 10);
    w.print_at_set(0, 0, "hello", Some((1, 1, 1, 1)), Some((2, 2, 2, 2)), Some(1));
    assert!(w.add_instance(InstanceData::new('x', (0, 0, 0, 255), (0, 0, 0, 0), [0, 0], 0)));
    w.begin_frame();
    w.clear();
    assert!(w.is_dirty());
    assert_eq!(w.instance_count(), 0);
    for y in 0..10 {
        for x in 0..10 {
            let c = w.cell_at(x, y).unwrap();
            assert_eq!(c.glyph, 0);
            assert_eq!(c.fg, (0, 0, 0, 0));
            assert_eq!(c.bg, (0, 0, 0, 0));
            assert_eq!(c.set, 0);
        }
    }
}

#[test]
fn instance_pool_saturates_and_reset_reuses_slot_zero() {
    let mut w = Window::new(config(4, 4, 3), &vec![(128, 128)]).unwrap();
    for i in 0..3u32 {
        let d = InstanceData::new('a', (0, 0, 0, 255), (0, 0, 0, 0), [i, 0], 0);
        assert!(w.add_instance(d));
    }
    assert_eq!(w.instance_count(), 3);
    w.begin_frame();
    let extra = InstanceData::new('b', (0, 0, 0, 255), (0, 0, 0, 0), [9, 9], 0);
    assert!(!w.add_instance(extra));
    assert_eq!(w.instance_count(), 3);
    assert!(!w.is_dirty());
    w.reset_instances();
    assert_eq!(w.instance_count(), 0);
    assert!(w.add_instance(extra));
    assert_eq!(w.instance_count(), 1);
    assert_eq!(w.instances()[0].position_bits, [9, 9]);
    assert_eq!(w.instances()[0].set_char, [0, 98]);
    assert_eq!(w.instances()[1].position_bits, [1, 0]);
}

#[test]
fn instance_from_char_needs_a_glyph() {
    assert!(InstanceData::from_char('Ą', (0, 0, 0, 0), (0, 0, 0, 0), [0, 0], 0).is_none());
    let d = InstanceData::from_char('♥', (1, 2, 3, 4), (5, 6, 7, 8), [1, 2], 1).unwrap();
    assert_eq!(d.set_char, [1, 3]);
    assert_eq!(d.fg, (1, 2, 3, 4));
    assert_eq!(d.bg, (5, 6, 7, 8));
}

#[test]
fn outline_rect_touches_exactly_the_perimeter() {
    let mut w = window(10, 10);
    w.draw_rect(1, 1, 5, 3, false, None, None, Some('#'), None);
    let mut touched = 0;
    for y in 0..10 {
        for x in 0..10 {
            if glyph(&w, x, y) == b'#' {
                touched += 1;
                assert!(x == 1 || x == 5 || y == 1 || y == 3);
            }
        }
    }
    assert_eq!(touched, 12);
    for x in 2..5 {
        assert_eq!(glyph(&w, x, 2), 0);
    }
}

#[test]
fn filled_rect_writes_every_cell_and_clips() {
    let mut w = window(10, 10);
    w.draw_rect(8, 8, 4, 4, true, Some((9, 9, 9, 9)), None, None, Some(1));
    let mut touched = 0;
    for y in 0..10 {
        for x in 0..10 {
            let c = w.cell_at(x, y).unwrap();
            if c.fg == (9, 9, 9, 9) {
                touched += 1;
                assert_eq!(c.set, 1);
                assert_eq!(c.glyph, 0);
            }
        }
    }
    assert_eq!(touched, 4);
    w.draw_rect_ex(0, 0, 2, 2, true, None, Some((1, 1, 1, 1)), Some('Ą'), None);
    assert_eq!(w.cell_at(1, 1).unwrap().bg, (1, 1, 1, 1));
    assert_eq!(glyph(&w, 1, 1), 0);
}

#[test]
fn outline_with_zero_width_paints_two_columns() {
    let mut w = window(10, 10);
    w.draw_rect(3, 0, 0, 2, false, None, None, Some('#'), None);
    assert_eq!(glyph(&w, 3, 0), b'#');
    assert_eq!(glyph(&w, 2, 1), b'#');
    assert_eq!(glyph(&w, 4, 0), 0);
}

#[test]
fn print_skips_unencodable_but_advances() {
    let mut w = window(10, 10);
    w.print_at(0, 0, "aĄb", Some((1, 2, 3, 4)), None);
    assert_eq!(glyph(&w, 0, 0), b'a');
    assert_eq!(glyph(&w, 1, 0), 0);
    assert_eq!(w.cell_at(1, 0).unwrap().fg, (0, 0, 0, 0));
    assert_eq!(glyph(&w, 2, 0), b'b');
    assert_eq!(w.cell_at(2, 0).unwrap().fg, (1, 2, 3, 4));
}

#[test]
fn print_clips_at_the_edges() {
    let mut w = window(4, 2);
    w.print_at(2, 1, "xyz", None, None);
    assert_eq!(glyph(&w, 2, 1), b'x');
    assert_eq!(glyph(&w, 3, 1), b'y');
    assert_eq!(glyph(&w, 0, 1), 0);
    w.print_at(-2, 0, "abcd", None, None);
    assert_eq!(glyph(&w, 0, 0), b'c');
    assert_eq!(glyph(&w, 1, 0), b'd');
    w.print_at(0, 5, "zz", None, None);
    assert_eq!(glyph(&w, 0, 1), 0);
}

#[test]
fn snapshot_round_trip_restores_region() {
    let mut w = window(10, 10);
    w.print_at_set(1, 2, "abc", Some((10, 20, 30, 40)), Some((50, 60, 70, 80)), Some(1));
    w.print_at(1, 3, "de", None, None);
    let snap = w.take_snapshot(1, 2, 3, 2);
    assert_eq!(snap.begin, (1, 2));
    assert_eq!(snap.size, (3, 2));
    assert_eq!(snap.text, vec![b'a', b'd', b'b', b'e', b'c', 0]);
    w.clear();
    w.apply_snapshot(&snap, 1, 2);
    assert_eq!(glyph(&w, 1, 2), b'a');
    assert_eq!(glyph(&w, 2, 3), b'e');
    let c = w.cell_at(3, 2).unwrap();
    assert_eq!(c.fg, (10, 20, 30, 40));
    assert_eq!(c.bg, (50, 60, 70, 80));
    assert_eq!(c.set, 1);
    assert_eq!(w.cell_at(3, 3).unwrap().set, 0);
}

#[test]
fn snapshot_applies_at_an_offset_and_drops_outside_cells() {
    let mut w = window(10, 10);
    w.print_at(0, 0, "ab", None, None);
    let snap = w.take_snapshot(0, 0, 2, 1);
    w.apply_snapshot(&snap, 9, 5);
    assert_eq!(glyph(&w, 9, 5), b'a');
    w.apply_snapshot(&snap, -1, 7);
    assert_eq!(glyph(&w, 0, 7), b'b');
}

#[test]
fn print_then_snapshot_gives_encoded_glyphs() {
    let mut w = window(10, 10);
    w.print_at(0, 0, "Hi", None, None);
    let snap = w.take_snapshot(0, 0, 2, 1);
    assert_eq!(snap.text, vec![yarl_2::codec::encode('H').unwrap(), yarl_2::codec::encode('i').unwrap()]);
    assert_eq!(snap.fg.len(), 8);
    assert_eq!(snap.set.len(), 2);
}

#[test]
fn frame_plan_uploads_only_when_dirty() {
    let mut w = window(10, 10);
    let p = w.begin_frame();
    assert!(!p.upload);
    assert_eq!(p.clear_color, (255, 255, 255, 255));
    assert_eq!(p.instance_count, 0);
    w.add_instance(InstanceData::new('a', (0, 0, 0, 0), (0, 0, 0, 0), [0, 0], 0));
    let p = w.begin_frame();
    assert!(p.upload);
    assert_eq!(p.instance_count, 1);
    assert!(!w.begin_frame().upload);
}

#[test]
fn atlas_validation_reports_the_first_bad_atlas() {
    assert_eq!(validate_atlases(&vec![]), Err(AtlasError::NoFonts));
    assert_eq!(validate_atlases(&vec![(128, 256)]), Ok((8, 16)));
    assert_eq!(validate_atlases(&vec![(128, 128), (130, 128), (64, 64)]), Err(AtlasError::NotAGlyphGrid { index: 1 }));
    assert_eq!(validate_atlases(&vec![(128, 128), (64, 64), (130, 128)]), Err(AtlasError::SizeMismatch { index: 1 }));
    assert_eq!(validate_atlases(&vec![(0, 128)]), Err(AtlasError::NotAGlyphGrid { index: 0 }));
    assert_eq!(validate_atlases(&vec![(16, 16); 257]), Err(AtlasError::TooManyFonts));
    assert!(Window::new(config(2, 2, 0), &vec![(128, 128), (64, 64)]).is_err());
}

#[test]
fn channel_layouts_cover_their_buffers() {
    let w = window(7, 3);
    let g = w.channel_layout(Channel::Glyph).unwrap();
    assert_eq!((g.width, g.height, g.bytes_per_texel, g.bytes_per_row), (7, 3, 1, 7));
    let f = w.channel_layout(Channel::Foreground).unwrap();
    assert_eq!((f.bytes_per_texel, f.bytes_per_row), (4, 28));
    assert_eq!(f.bytes_per_row as usize * f.height as usize, w.fg_buffer().len());
    let s = w.channel_layout(Channel::FontSelector).unwrap();
    assert_eq!(s.bytes_per_row as usize * s.height as usize, w.set_buffer().len());
    assert_eq!(w.channel_layout(Channel::Background).unwrap().bytes_per_row, 28);
}

#[test]
fn surface_format_prefers_the_asked_colour_space() {
    assert_eq!(pick_surface_format(&vec![false, true, true], true), Some(1));
    assert_eq!(pick_surface_format(&vec![true, true], false), Some(0));
    assert_eq!(pick_surface_format(&vec![true, false], false), Some(1));
    assert_eq!(pick_surface_format(&vec![], true), None);
}

#[test]
fn empty_inputs_change_nothing() {
    let mut w = window(5, 5);
    w.print_at(0, 0, "", Some((1, 1, 1, 1)), None);
    assert!(!w.is_dirty());
    let snap = w.take_snapshot(1, 1, 0, 3);
    assert!(snap.text.is_empty() && snap.fg.is_empty() && snap.bg.is_empty() && snap.set.is_empty());
    w.apply_snapshot(&snap, 0, 0);
    assert!(!w.is_dirty());
    w.draw_rect(0, 0, 0, 0, true, Some((1, 1, 1, 1)), None, None, None);
    assert!(!w.is_dirty());
    let cloned = snap.clone();
    assert_eq!(cloned.size, (0, 3));
}

#[test]
fn pool_without_slots_refuses_every_glyph() {
    let mut w = Window::new(config(3, 3, 0), &vec![(16, 16)]).unwrap();
    assert!(!w.add_instance(InstanceData::new('a', (0, 0, 0, 0), (0, 0, 0, 0), [0, 0], 0)));
    assert_eq!(w.instance_count(), 0);
    assert!(!w.is_dirty());
}
