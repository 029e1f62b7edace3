//! The scrollable viewport: the scroll round trip, wheel steps, thumb
//! dragging, and the child kept at content size.
use red_ui::clipboard::Clipboard;
use red_ui::draw::Color;
use red_ui::event::{Event, MouseButton, MouseButtons, WheelDirection};
use red_ui::functions::StateEnum;
use red_ui::geometry::Rect;
use red_ui::ui_element::scroll_view::{ScrollView, SCROLL_MAX, WHEEL_STEP};
use red_ui::ui_element::ui_rect::UIRect;
use red_ui::user_control::UserControl;

fn view() -> ScrollView<(), (), UIRect> {
    ScrollView::new(
        UIRect::new(StateEnum::Enable, Color::new(0, 0, 0, 255)),
        200,
        150,
        Color::new(9, 9, 9, 255),
    )
}

fn place(sv: &mut ScrollView<(), (), UIRect>, clip: &mut Clipboard) {
    assert!(sv
        .event(clip, &Event::ElementMove { x: 0, y: 0 }, &mut (), &mut ())
        .is_ok());
    assert!(sv
        .event(
            clip,
            &Event::ElementResize {
                width: 100,
                height: 100,
            },
            &mut (),
            &mut ()
        )
        .is_ok());
}

#[test]
fn scroll_round_trip_reaches_both_content_ends() {
    let mut clip = Clipboard::new();
    let mut sv = view();
    place(&mut sv, &mut clip);

    // Fraction zero: the visible window sits at the content's start.
    assert!(sv.update(&mut clip, 16, &mut (), &mut ()).is_ok());
    assert_eq!(sv.child_surface, Rect::new(0, 0, 100, 100));
    // The child is told it occupies the full logical content size.
    assert_eq!(sv.child().surface, Rect::new(0, 0, 200, 150));

    // Full fraction on both axes: the window's far edges land exactly on
    // the content's ends.
    sv.h_scroll = SCROLL_MAX;
    sv.v_scroll = SCROLL_MAX;
    assert!(sv.update(&mut clip, 16, &mut (), &mut ()).is_ok());
    assert_eq!(sv.child_surface, Rect::new(100, 50, 100, 100));
    assert_eq!(sv.child_surface.x + sv.child_surface.width, 200);
    assert_eq!(sv.child_surface.y + sv.child_surface.height, 150);
}

#[test]
fn wheel_moves_a_tenth_per_unit_on_scrollable_axes_only() {
    let mut clip = Clipboard::new();
    let mut sv = view();
    place(&mut sv, &mut clip);
    let wheel = |sx: i64, sy: i64| Event::MouseWheel {
        which: 0,
        scroll_x: sx,
        scroll_y: sy,
        direction: WheelDirection::Normal,
        mouse_x: 50,
        mouse_y: 50,
    };
    assert!(sv.event(&mut clip, &wheel(-2, -1), &mut (), &mut ()).is_ok());
    assert_eq!(sv.h_scroll, 2 * WHEEL_STEP);
    assert_eq!(sv.v_scroll, WHEEL_STEP);
    // Clamped at the ends.
    assert!(sv.event(&mut clip, &wheel(-20, 3), &mut (), &mut ()).is_ok());
    assert_eq!(sv.h_scroll, SCROLL_MAX);
    assert_eq!(sv.v_scroll, 0);

    // An axis whose content fits is never wheel-scrolled.
    let mut flat = ScrollView::new(
        UIRect::new(StateEnum::Enable, Color::new(0, 0, 0, 255)),
        50,
        150,
        Color::new(9, 9, 9, 255),
    );
    place(&mut flat, &mut clip);
    assert!(flat.event(&mut clip, &wheel(-2, -2), &mut (), &mut ()).is_ok());
    assert_eq!(flat.h_scroll, 0);
    assert_eq!(flat.v_scroll, 2 * WHEEL_STEP);
}

#[test]
fn thumb_press_drag_release() {
    let mut clip = Clipboard::new();
    let mut sv = view();
    place(&mut sv, &mut clip);
    // The horizontal thumb: length max(30, 2*100 - 200) = 30, at the track
    // start, along the viewport's bottom edge.
    let down = Event::MouseButtonDown {
        which: 0,
        mouse_btn: MouseButton::Left,
        clicks: 1,
        x: 10,
        y: 85,
    };
    assert!(sv.event(&mut clip, &down, &mut (), &mut ()).is_ok());
    assert!(sv.h_selected);

    // Dragging to the track's middle: fraction (45 - 15) / (100 - 30).
    let motion = Event::MouseMotion {
        which: 0,
        buttons: MouseButtons {
            left: true,
            middle: false,
            right: false,
        },
        x: 45,
        y: 85,
        moved_x: 0,
        moved_y: 0,
    };
    assert!(sv.event(&mut clip, &motion, &mut (), &mut ()).is_ok());
    assert_eq!(sv.h_scroll, 30 * SCROLL_MAX / 70);

    let up = Event::MouseButtonUp {
        which: 0,
        mouse_btn: MouseButton::Left,
        clicks: 1,
        x: 45,
        y: 85,
    };
    assert!(sv.event(&mut clip, &up, &mut (), &mut ()).is_ok());
    assert!(!sv.h_selected);
    assert!(!sv.v_selected);
}

#[test]
fn vertical_thumb_press_and_drag() {
    let mut clip = Clipboard::new();
    let mut sv = view();
    place(&mut sv, &mut clip);
    // The vertical thumb: length max(30, 2*100 - 150) = 50, at the track
    // start, along the viewport's right edge.
    let down = Event::MouseButtonDown {
        which: 0,
        mouse_btn: MouseButton::Left,
        clicks: 1,
        x: 85,
        y: 10,
    };
    assert!(sv.event(&mut clip, &down, &mut (), &mut ()).is_ok());
    assert!(sv.v_selected);
    // Dragging down: fraction (60 - 25) / (100 - 50).
    let motion = Event::MouseMotion {
        which: 0,
        buttons: MouseButtons {
            left: true,
            middle: false,
            right: false,
        },
        x: 85,
        y: 60,
        moved_x: 0,
        moved_y: 0,
    };
    assert!(sv.event(&mut clip, &motion, &mut (), &mut ()).is_ok());
    assert_eq!(sv.v_scroll, 35 * SCROLL_MAX / 50);
}

#[test]
fn pointer_events_reach_the_child_remapped_into_content_space() {
    let mut clip = Clipboard::new();
    let mut sv = ScrollView::new(
        UIRect::new(StateEnum::Enable, Color::new(0, 0, 0, 255)).action(),
        200,
        150,
        Color::new(9, 9, 9, 255),
    );
    place(&mut sv, &mut clip);
    assert!(sv.update(&mut clip, 16, &mut (), &mut ()).is_ok());
    // The child fills content space (0,0)-(200,150); a click at the
    // viewport's center maps through the visible window to (50, 50) in
    // content space, which the armed child accepts.
    let down = Event::MouseButtonDown {
        which: 0,
        mouse_btn: MouseButton::Left,
        clicks: 1,
        x: 50,
        y: 50,
    };
    assert!(sv.event(&mut clip, &down, &mut (), &mut ()).is_ok());
    assert_eq!(sv.child().activations(), 1);
}

#[test]
fn draw_brackets_the_child_in_an_offscreen_target() {
    let mut clip = Clipboard::new();
    let mut sv = view();
    place(&mut sv, &mut clip);
    assert!(sv.update(&mut clip, 16, &mut (), &mut ()).is_ok());
    let mut canvas = Vec::new();
    assert!(UserControl::<(), ()>::draw(&sv, &mut canvas, &(), &()).is_ok());
    assert!(matches!(
        canvas[0],
        red_ui::draw::DrawCmd::PushTarget {
            width: 200,
            height: 150
        }
    ));
    // Both axes exceed the viewport, so both thumbs are drawn after the
    // blit.
    assert!(canvas.len() >= 4);
}
