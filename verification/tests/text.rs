//! The measured string and the text box: capacity rejection, the longest
//! fitting prefix, caret placement, selection bounds, and the clipboard
//! shortcuts.
use red_ui::clipboard::Clipboard;
use red_ui::draw::Color;
use red_ui::event::{Event, Key};
use red_ui::functions::StateEnum;
use red_ui::geometry::Rect;
use red_ui::ui_element::text_box::TextBox;
use red_ui::ui_string::{string_size, FontMetrics, UIString, MAX_TEXT_DIMENSION};
use red_ui::user_control::UserControl;

fn chars(s: &str) -> Vec<char> {
    s.chars().collect()
}

/// Each character a thousand pixels wide: eight fit, nine do not.
fn wide() -> FontMetrics {
    FontMetrics::monospace(1000, 10)
}

fn boxed(text: &str) -> TextBox {
    let mut tb = TextBox::new(
        UIString::new_const(wide(), chars(text)),
        StateEnum::Enable,
        Color::new(1, 1, 1, 255),
        Color::new(2, 2, 2, 255),
        Color::new(3, 3, 3, 255),
        Color::new(4, 4, 4, 255),
    );
    tb.surface = Rect::new(0, 0, 100, 20);
    tb
}

fn key_down(tb: &mut TextBox, clip: &mut Clipboard, key: Key) {
    assert!(tb
        .event(clip, &Event::KeyDown { key }, &mut (), &mut ())
        .is_ok());
}

fn key_up(tb: &mut TextBox, clip: &mut Clipboard, key: Key) {
    assert!(tb
        .event(clip, &Event::KeyUp { key }, &mut (), &mut ())
        .is_ok());
}

fn selection_in_bounds(tb: &TextBox) {
    if let Some((a, b)) = tb.selected {
        assert!(a <= tb.text().len());
        if let Some(b) = b {
            assert!(b <= tb.text().len());
        }
    }
}

#[test]
fn measurement_respects_the_bound() {
    assert_eq!(string_size(&wide(), &chars("abcd")), Some((4000, 10)));
    assert_eq!(string_size(&wide(), &chars("abcdefgh")), Some((8000, 10)));
    assert_eq!(string_size(&wide(), &chars("abcdefghi")), None);
    assert_eq!(MAX_TEXT_DIMENSION, 8192);
    // A line height beyond the bound never fits, whatever the text.
    assert_eq!(string_size(&FontMetrics::monospace(1, 9000), &chars("")), None);
}

#[test]
fn insert_rolls_back_when_it_does_not_fit() {
    let mut s = UIString::new(wide(), chars("abcdefgh")).expect("fits");
    assert!(!s.insert(0, 'x'));
    assert_eq!(s.as_chars(), &chars("abcdefgh"));
    let mut t = UIString::new(wide(), chars("abc")).expect("fits");
    assert!(t.insert(1, 'x'));
    assert_eq!(t.as_chars(), &chars("axbc"));
}

#[test]
fn insert_str_accepts_the_longest_fitting_prefix() {
    // Nothing fits: the buffer is byte-for-byte unchanged and zero
    // characters are accepted.
    let mut full = UIString::new(wide(), chars("abcdefgh")).expect("fits");
    assert_eq!(full.insert_str(4, &chars("xyz")), 0);
    assert_eq!(full.as_chars(), &chars("abcdefgh"));

    // Part fits: exactly the longest fitting prefix is kept.
    let mut some = UIString::new(wide(), chars("abcdef")).expect("fits");
    assert_eq!(some.insert_str(3, &chars("wxyz")), 2);
    assert_eq!(some.as_chars(), &chars("abcwxdef"));

    // All fits.
    let mut empty = UIString::new(wide(), chars("")).expect("fits");
    assert_eq!(empty.insert_str(0, &chars("hello")), 5);
    assert_eq!(empty.as_chars(), &chars("hello"));
}

#[test]
fn drain_and_remove_are_speculative() {
    let mut s = UIString::new(wide(), chars("abcdef")).expect("fits");
    assert_eq!(s.drain(1, 3), Some(chars("bcd")));
    assert_eq!(s.as_chars(), &chars("aef"));
    assert_eq!(s.remove(0), Some('a'));
    assert_eq!(s.as_chars(), &chars("ef"));

    // A buffer taken on faith beyond the bound stays too large after one
    // removal, so the removal rolls back.
    let mut huge = UIString::new_const(wide(), chars("abcdefghij"));
    assert_eq!(huge.remove(0), None);
    assert_eq!(huge.len(), 10);
}

#[test]
fn typing_inserts_at_the_caret_and_advances_it() {
    let mut clip = Clipboard::new();
    let mut tb = boxed("ab");
    tb.selected = Some((1, None));
    key_down(&mut tb, &mut clip, Key::Char('x'));
    assert_eq!(tb.text().as_chars(), &chars("axb"));
    assert_eq!(tb.selected, Some((2, None)));
    selection_in_bounds(&tb);
}

#[test]
fn typing_beyond_capacity_leaves_buffer_and_caret() {
    let mut clip = Clipboard::new();
    let mut tb = boxed("abcdefgh");
    tb.selected = Some((8, None));
    key_down(&mut tb, &mut clip, Key::Char('x'));
    // Nothing fit: zero characters accepted, the caret exactly after the
    // accepted (empty) text.
    assert_eq!(tb.text().as_chars(), &chars("abcdefgh"));
    assert_eq!(tb.selected, Some((8, None)));
}

#[test]
fn shift_folds_typed_letters_to_upper_case() {
    let mut clip = Clipboard::new();
    let mut tb = boxed("");
    tb.selected = Some((0, None));
    key_down(&mut tb, &mut clip, Key::LShift);
    key_down(&mut tb, &mut clip, Key::Char('q'));
    key_up(&mut tb, &mut clip, Key::LShift);
    key_down(&mut tb, &mut clip, Key::Char('R'));
    assert_eq!(tb.text().as_chars(), &chars("Qr"));
}

#[test]
fn backspace_delete_and_arrows() {
    let mut clip = Clipboard::new();
    let mut tb = boxed("abcd");
    tb.selected = Some((2, None));
    key_down(&mut tb, &mut clip, Key::Backspace);
    assert_eq!(tb.text().as_chars(), &chars("acd"));
    assert_eq!(tb.selected, Some((1, None)));
    key_down(&mut tb, &mut clip, Key::Delete);
    assert_eq!(tb.text().as_chars(), &chars("ad"));
    assert_eq!(tb.selected, Some((1, None)));
    key_down(&mut tb, &mut clip, Key::Left);
    assert_eq!(tb.selected, Some((0, None)));
    key_down(&mut tb, &mut clip, Key::Left);
    assert_eq!(tb.selected, Some((0, None)));
    key_down(&mut tb, &mut clip, Key::Right);
    assert_eq!(tb.selected, Some((1, None)));
    // Shift extends instead of moving.
    key_down(&mut tb, &mut clip, Key::LShift);
    key_down(&mut tb, &mut clip, Key::Right);
    assert_eq!(tb.selected, Some((1, Some(2))));
    key_down(&mut tb, &mut clip, Key::Left);
    assert_eq!(tb.selected, Some((1, None)));
    selection_in_bounds(&tb);
}

#[test]
fn selection_stays_in_bounds_through_mixed_operations() {
    let mut clip = Clipboard::new();
    let mut tb = boxed("abcdef");
    tb.selected = Some((0, None));
    let keys = [
        Key::Right,
        Key::Right,
        Key::LShift,
        Key::Right,
        Key::Right,
        Key::Backspace,
        Key::Char('z'),
        Key::Left,
        Key::Delete,
        Key::Delete,
        Key::Right,
        Key::Right,
        Key::Right,
        Key::Right,
        Key::Right,
    ];
    for k in keys {
        key_down(&mut tb, &mut clip, k);
        selection_in_bounds(&tb);
    }
}

#[test]
fn select_all_copy_cut_paste() {
    let mut clip = Clipboard::new();
    let mut tb = boxed("abc");
    tb.selected = Some((0, None));
    key_down(&mut tb, &mut clip, Key::LCtrl);
    key_down(&mut tb, &mut clip, Key::Char('a'));
    assert_eq!(tb.selected, Some((0, Some(3))));
    key_down(&mut tb, &mut clip, Key::Char('c'));
    assert_eq!(clip.get_text(), Some(&chars("abc")));
    assert_eq!(tb.text().as_chars(), &chars("abc"));
    key_down(&mut tb, &mut clip, Key::Char('x'));
    assert_eq!(tb.text().as_chars(), &chars(""));
    assert_eq!(tb.selected, Some((0, None)));
    key_down(&mut tb, &mut clip, Key::Char('v'));
    assert_eq!(tb.text().as_chars(), &chars("abc"));
    assert_eq!(tb.selected, Some((3, None)));
    selection_in_bounds(&tb);
}

#[test]
fn click_places_the_caret_by_half_width_rounding() {
    let mut clip = Clipboard::new();
    // Four characters, each a quarter of the 100-pixel box: 25 scaled
    // pixels per character.
    let mut tb = boxed("abcd");
    let down = |x: i64| Event::MouseButtonDown {
        which: 0,
        mouse_btn: red_ui::event::MouseButton::Left,
        clicks: 1,
        x,
        y: 10,
    };
    assert!(tb.event(&mut clip, &down(3), &mut (), &mut ()).is_ok());
    assert_eq!(tb.selected, Some((0, None)));
    assert!(tb.event(&mut clip, &down(20), &mut (), &mut ()).is_ok());
    assert_eq!(tb.selected, Some((1, None)));
    assert!(tb.event(&mut clip, &down(60), &mut (), &mut ()).is_ok());
    assert_eq!(tb.selected, Some((2, None)));
    assert!(tb.event(&mut clip, &down(99), &mut (), &mut ()).is_ok());
    assert_eq!(tb.selected, Some((4, None)));
    // A click outside the box clears the selection entirely.
    let outside = Event::MouseButtonDown {
        which: 0,
        mouse_btn: red_ui::event::MouseButton::Left,
        clicks: 1,
        x: 500,
        y: 500,
    };
    assert!(tb.event(&mut clip, &outside, &mut (), &mut ()).is_ok());
    assert_eq!(tb.selected, None);
}

#[test]
fn caret_pixel_positions_scale_with_the_box() {
    let tb = boxed("abcd");
    assert_eq!(tb.index_to_position(0), 0);
    assert_eq!(tb.index_to_position(1), 25);
    assert_eq!(tb.index_to_position(2), 50);
    assert_eq!(tb.index_to_position(4), 100);
}

#[test]
fn hidden_box_ignores_input() {
    let mut clip = Clipboard::new();
    let mut tb = boxed("ab");
    tb.state = StateEnum::Showing;
    tb.selected = Some((0, None));
    key_down(&mut tb, &mut clip, Key::Char('x'));
    assert_eq!(tb.text().as_chars(), &chars("ab"));
}

#[test]
fn rolled_back_range_deletion_keeps_the_caret() {
    let mut clip = Clipboard::new();
    // A buffer taken on faith beyond the measurement bound: deleting one
    // character of a ten-character range still leaves it too large, so the
    // deletion rolls back — and the selection and anchor stay exactly as
    // they were.
    let mut tb = boxed("abcdefghijk");
    tb.selected = Some((11, Some(10)));
    key_down(&mut tb, &mut clip, Key::Backspace);
    assert_eq!(tb.text().as_chars(), &chars("abcdefghijk"));
    assert_eq!(tb.selected, Some((11, Some(10))));
}

#[test]
fn shift_click_extends_from_the_anchor() {
    let mut clip = Clipboard::new();
    let mut tb = boxed("abcd");
    tb.selected = Some((1, None));
    key_down(&mut tb, &mut clip, Key::LShift);
    let down = Event::MouseButtonDown {
        which: 0,
        mouse_btn: red_ui::event::MouseButton::Left,
        clicks: 1,
        x: 99,
        y: 10,
    };
    assert!(tb.event(&mut clip, &down, &mut (), &mut ()).is_ok());
    assert_eq!(tb.selected, Some((1, Some(4))));
}

#[test]
fn drag_extends_the_selection_free_end() {
    let mut clip = Clipboard::new();
    let mut tb = boxed("abcd");
    tb.selected = Some((1, None));
    let motion = Event::MouseMotion {
        which: 0,
        buttons: red_ui::event::MouseButtons {
            left: true,
            middle: false,
            right: false,
        },
        x: 60,
        y: 10,
        moved_x: 0,
        moved_y: 0,
    };
    assert!(tb.event(&mut clip, &motion, &mut (), &mut ()).is_ok());
    assert_eq!(tb.selected, Some((1, Some(2))));
}

#[test]
fn string_draw_emits_one_text_command() {
    let s = UIString::new(wide(), chars("hey")).expect("fits");
    let mut canvas = Vec::new();
    s.draw(&mut canvas, Rect::new(1, 2, 30, 10), white());
    assert_eq!(canvas.len(), 1);
    match &canvas[0] {
        red_ui::draw::DrawCmd::Text { text, dest, color } => {
            assert_eq!(text, &chars("hey"));
            assert_eq!(*dest, Rect::new(1, 2, 30, 10));
            assert_eq!(*color, white());
        }
        other => panic!("unexpected command: {other:?}"),
    }
}

fn white() -> Color {
    Color::new(255, 255, 255, 255)
}
