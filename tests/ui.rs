use yarl_2::grid::GridConfig;
use yarl_2::ui::{BorderStyle, BoxPlacementStyle, Button, Event, FillStyle, Label, SingleCharDecoration};
use yarl_2::window::Window;

fn window() -> Window {
    let config = GridConfig {
        size: (12, 12),
        padding: (0, 0),
        scale: (1, 1),
        background_color: (0, 0, 0, 255),
        max_instances: 0,
        srgb: false,
    };
    Window::new(config, &vec![(128, 128)]).unwrap()
}

#[test]
fn empty_border_writes_nothing() {
    let b = BorderStyle::empty();
    assert!(b.char.is_none() && b.fg.is_none() && b.bg.is_none());
    let mut w = window();
    FillStyle::default().fill((0, 0), (5, 5), &mut w);
    assert!(!w.is_dirty());
}

#[test]
fn fill_covers_box_then_border() {
    let mut w = window();
    let style = FillStyle {
        background_color: Some((1, 1, 1, 1)),
        foreground_color: None,
        fill_char: Some('.'),
        border: BorderStyle { char: Some('#'), fg: None, bg: None },
    };
    style.fill((1, 1), (5, 4), &mut w);
    assert_eq!(w.cell_at(1, 1).unwrap().glyph, b'#');
    assert_eq!(w.cell_at(4, 3).unwrap().glyph, b'#');
    assert_eq!(w.cell_at(2, 2).unwrap().glyph, b'.');
    assert_eq!(w.cell_at(3, 2).unwrap().glyph, b'.');
    assert_eq!(w.cell_at(5, 2).unwrap().glyph, 0);
    assert_eq!(w.cell_at(1, 1).unwrap().bg, (1, 1, 1, 1));
    assert_eq!(w.cell_at(0, 0).unwrap().bg, (0, 0, 0, 0));
}

#[test]
fn placement_gives_each_child_its_area() {
    let start = (2, 2);
    let end = (18, 18);
    assert_eq!(BoxPlacementStyle::Full.child_area(start, end, 3), Some(((2, 2), (18, 18))));
    assert_eq!(BoxPlacementStyle::Within { padding: 1 }.child_area(start, end, 0), Some(((3, 3), (17, 17))));
    assert_eq!(BoxPlacementStyle::AlignY { height: 5 }.child_area(start, end, 2), Some(((2, 12), (18, 17))));
    assert_eq!(BoxPlacementStyle::AlignX { width: 4 }.child_area(start, end, 1), Some(((6, 2), (10, 18))));
    assert_eq!(BoxPlacementStyle::SplitY.child_area(start, end, 0), None);
    assert_eq!(BoxPlacementStyle::AlignY { height: i32::MAX }.child_area(start, end, 2), None);
}

#[test]
fn label_prints_its_text() {
    let mut w = window();
    let l = Label { foreground_color: Some((3, 3, 3, 3)), background_color: None, text: "ok".to_string() };
    l.render((4, 5), &mut w);
    assert_eq!(w.cell_at(4, 5).unwrap().glyph, b'o');
    assert_eq!(w.cell_at(5, 5).unwrap().glyph, b'k');
    assert_eq!(w.cell_at(5, 5).unwrap().fg, (3, 3, 3, 3));
    assert_eq!(Label::default().text, "");
}

#[test]
fn button_hover_covers_its_text_or_selection() {
    let b = Button { text: "press".to_string(), id: "go".to_string(), ..Default::default() };
    assert!(b.is_hovered((2, 3), (2, 3), None));
    assert!(b.is_hovered((2, 3), (6, 3), None));
    assert!(!b.is_hovered((2, 3), (7, 3), None));
    assert!(!b.is_hovered((2, 3), (3, 4), None));
    let sel = "go".to_string();
    assert!(b.is_hovered((2, 3), (0, 0), Some(&sel)));
}

#[test]
fn button_events_follow_state_changes() {
    let b = Button { id: "go".to_string(), ..Default::default() };
    assert!(matches!(b.button_event(Some(true), false), Some(Event::Pressed(ref i)) if i == "go"));
    assert!(matches!(b.button_event(Some(false), true), Some(Event::Unpressed(ref i)) if i == "go"));
    assert!(b.button_event(Some(true), true).is_none());
    assert!(b.button_event(None, true).is_none());
}

#[test]
fn button_render_flips_colours_when_highlighted() {
    let deco = SingleCharDecoration { fg: None, bg: None, ch: Some('[') };
    let b = Button {
        foreground_color: Some((1, 1, 1, 1)),
        background_color: Some((2, 2, 2, 2)),
        text: "ab".to_string(),
        decoration_left: Some(deco),
        decoration_right: Some(SingleCharDecoration { ch: Some(']'), ..deco }),
        ..Default::default()
    };
    let mut w = window();
    b.render((0, 0), &mut w, true);
    assert_eq!(w.cell_at(0, 0).unwrap().glyph, b'[');
    assert_eq!(w.cell_at(1, 0).unwrap().glyph, b'a');
    assert_eq!(w.cell_at(1, 0).unwrap().fg, (2, 2, 2, 2));
    assert_eq!(w.cell_at(3, 0).unwrap().glyph, b']');
    let mut w = window();
    b.render((0, 0), &mut w, false);
    assert_eq!(w.cell_at(0, 1).unwrap().glyph, b'a');
    assert_eq!(w.cell_at(0, 1).unwrap().fg, (1, 1, 1, 1));
}
