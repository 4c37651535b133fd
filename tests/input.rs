use yarl_2::grid::GridConfig;
use yarl_2::input::{key_update, pointer_axis_to_cell, resize_target, window_pixel_size};

#[test]
fn pointer_maps_to_cell_after_padding_scale_and_glyph() {
    assert_eq!(pointer_axis_to_cell(24, 16, 2, 8), 1);
    assert_eq!(pointer_axis_to_cell(8, 16, 2, 8), 0);
    assert_eq!(pointer_axis_to_cell(7, 16, 2, 8), -1);
    assert_eq!(pointer_axis_to_cell(0, 16, 2, 8), -1);
    assert_eq!(pointer_axis_to_cell(40, 16, 2, 8), 2);
    assert_eq!(pointer_axis_to_cell(39, 16, 2, 8), 1);
    assert_eq!(pointer_axis_to_cell(i64::MAX, 0, 1, 1), i32::MAX);
    assert_eq!(pointer_axis_to_cell(i64::MIN, 0, 1, 1), i32::MIN);
}

#[test]
fn window_size_covers_grid_and_padding() {
    let config = GridConfig {
        size: (64, 64),
        padding: (16, 16),
        scale: (1, 2),
        background_color: (255, 255, 255, 255),
        max_instances: 128,
        srgb: true,
    };
    assert_eq!(window_pixel_size(&config, (8, 8)), Some((528, 1056)));
    let huge = GridConfig { size: (u32::MAX, 1), ..config };
    assert_eq!(window_pixel_size(&huge, (8, 8)), None);
}

#[test]
fn resize_ignores_empty_sizes() {
    assert_eq!(resize_target(0, 10), None);
    assert_eq!(resize_target(10, 0), None);
    assert_eq!(resize_target(640, 480), Some((640, 480)));
}

#[test]
fn key_repeat_only_feeds_text_input() {
    let first = key_update(false, true, Some('a'));
    assert_eq!(first.text_input, Some('a'));
    assert_eq!(first.letter, Some(('a', true)));
    assert_eq!(first.key, Some(true));
    let repeat = key_update(true, true, Some('a'));
    assert_eq!(repeat.text_input, Some('a'));
    assert_eq!(repeat.letter, None);
    assert_eq!(repeat.key, None);
    let release = key_update(false, false, Some('a'));
    assert_eq!(release.text_input, None);
    assert_eq!(release.letter, Some(('a', false)));
    assert_eq!(release.key, Some(false));
    let no_text = key_update(false, true, None);
    assert_eq!(no_text.letter, None);
    assert_eq!(no_text.key, Some(true));
}
