//! The frame driver's decision pieces, the deferred-mutation queue, the
//! clipboard value, and the paint-ordered panel.
use red_ui::clipboard::Clipboard;
use red_ui::draw::Color;
use red_ui::event::Event;
use red_ui::functions::StateEnum;
use red_ui::geometry::Rect;
use red_ui::panel::{Panel, PanelChild};
use red_ui::state_manager::StateManager;
use red_ui::ui_element::ui_rect::UIRect;
use red_ui::{idle_poll_ms, remaining_frame_ms, startup_events, zero, WindowTracker};

#[test]
fn zero_rect_is_all_zero() {
    assert_eq!(zero(), Rect::new(0, 0, 0, 0));
}

#[test]
fn startup_reports_move_then_resize() {
    let evs = startup_events(5, 6, 640, 480);
    assert_eq!(evs.len(), 2);
    assert!(matches!(evs[0], Event::ElementMove { x: 5, y: 6 }));
    assert!(matches!(
        evs[1],
        Event::ElementResize {
            width: 640,
            height: 480
        }
    ));
}

#[test]
fn tracker_reports_only_what_changed() {
    let mut t = WindowTracker::new(0, 0, 640, 480);
    assert_eq!(t.observe(0, 0, 640, 480).len(), 0);
    let moved = t.observe(10, 0, 640, 480);
    assert_eq!(moved.len(), 1);
    assert!(matches!(moved[0], Event::ElementMove { x: 10, y: 0 }));
    let both = t.observe(20, 20, 800, 600);
    assert_eq!(both.len(), 2);
    assert!(matches!(both[0], Event::ElementMove { x: 20, y: 20 }));
    assert!(matches!(
        both[1],
        Event::ElementResize {
            width: 800,
            height: 600
        }
    ));
    assert_eq!(t.observe(20, 20, 800, 600).len(), 0);
}

#[test]
fn idle_polling_pauses_only_when_nothing_happened() {
    assert_eq!(idle_poll_ms(true), 0);
    assert_eq!(idle_poll_ms(false), 100);
}

#[test]
fn frame_budget_sleep() {
    assert_eq!(remaining_frame_ms(3, 50), 47);
    assert_eq!(remaining_frame_ms(50, 50), 0);
    assert_eq!(remaining_frame_ms(80, 50), 0);
}

#[test]
fn queue_drains_once_in_arrival_order() {
    let mut q: StateManager<u32> = StateManager::new();
    q.add(1);
    q.add(2);
    q.add(3);
    // Ops queued after this drain wait for the next one: within one frame
    // only what was already queued runs.
    let first = q.apply();
    assert_eq!(first, vec![1, 2, 3]);
    q.add(4);
    q.add(5);
    q.add(6);
    let second = q.apply();
    assert_eq!(second, vec![4, 5, 6]);
    assert_eq!(q.apply(), Vec::<u32>::new());
}

#[test]
fn clipboard_round_trip() {
    let mut c = Clipboard::new();
    assert!(!c.has_text());
    assert_eq!(c.get_text(), None);
    c.set_text(vec!['h', 'i']);
    assert!(c.has_text());
    assert_eq!(c.get_text(), Some(&vec!['h', 'i']));
}

#[test]
fn layered_panel_sorts_stably_by_z() {
    let tag = |t: u8| UIRect::new(StateEnum::Enable, Color::new(t, 0, 0, 255));
    let p: Panel<(), (), UIRect> = Panel::new(vec![
        PanelChild {
            z_index: 3,
            element: tag(0),
        },
        PanelChild {
            z_index: 1,
            element: tag(1),
        },
        PanelChild {
            z_index: 1,
            element: tag(2),
        },
        PanelChild {
            z_index: -2,
            element: tag(3),
        },
    ]);
    let order: Vec<u8> = p.subs.iter().map(|b| b.back_color.r).collect();
    // Lowest layer first; the two equal layers keep their given order.
    assert_eq!(order, vec![3, 1, 2, 0]);
}
