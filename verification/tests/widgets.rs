//! Click dispatch through the containers: the checkerboard grids and the
//! panel of buttons, with a shared count of accepted clicks.
use red_ui::clipboard::Clipboard;
use red_ui::composite::UiEither;
use red_ui::draw::Color;
use red_ui::event::{Event, MouseButton};
use red_ui::functions::StateEnum;
use red_ui::geometry::Rect;
use red_ui::ui_element::grid::{ColType, Grid, Pos, RowType};
use red_ui::ui_element::panel::Panel;
use red_ui::ui_element::ui_rect::UIRect;
use red_ui::user_control::UserControl;

type Button = UIRect;
type Cell = UiEither<Button, Grid<(), (), Button>>;

fn button() -> Button {
    UIRect::new(StateEnum::Enable, Color::new(0, 0, 0, 255)).action()
}

fn grid_clicks(grid: &Grid<(), (), Cell>) -> u64 {
    let mut total = 0u64;
    for (_, cell) in grid.iter().iter() {
        match cell {
            UiEither::First(b) => total += b.activations(),
            UiEither::Second(g) => {
                for (_, b) in g.iter().iter() {
                    total += b.activations();
                }
            }
        }
    }
    total
}

fn click<W: UserControl<(), ()>>(w: &mut W, clip: &mut Clipboard, x: i64, y: i64) {
    let ev = Event::MouseButtonDown {
        which: 0,
        mouse_btn: MouseButton::Left,
        clicks: 1,
        x,
        y,
    };
    assert!(w.event(clip, &ev, &mut (), &mut ()).is_ok());
}

fn panel_clicks(panel: &Panel<(), (), Button>) -> u64 {
    panel.iter().iter().map(|b| b.activations()).sum()
}

fn place<W: UserControl<(), ()>>(w: &mut W, clip: &mut Clipboard, r: Rect) {
    assert!(w
        .event(clip, &Event::ElementMove { x: r.x, y: r.y }, &mut (), &mut ())
        .is_ok());
    assert!(w
        .event(
            clip,
            &Event::ElementResize {
                width: r.width,
                height: r.height,
            },
            &mut (),
            &mut ()
        )
        .is_ok());
}

#[test]
pub fn tests() {
    let mut clip = Clipboard::new();

    // The checkerboard: a 50 by 50 grid of 10px gaps, a nested sub-grid of
    // 2px gaps in its middle cell, and buttons on the remaining diagonal
    // cells. Each click on a button's center counts exactly once; clicks on
    // gap coordinates count nothing.
    let sub: Grid<(), (), Button> = Grid::new(
        vec![
            ColType::Px(2),
            ColType::Ratio(1),
            ColType::Px(2),
            ColType::Ratio(1),
            ColType::Px(2),
        ],
        vec![
            RowType::Px(2),
            RowType::Ratio(1),
            RowType::Px(2),
            RowType::Ratio(1),
            RowType::Px(2),
        ],
        vec![
            (Pos { x: 1, y: 1 }, button()),
            (Pos { x: 3, y: 1 }, button()),
            (Pos { x: 1, y: 3 }, button()),
            (Pos { x: 3, y: 3 }, button()),
        ],
    );
    let mut grid: Grid<(), (), Cell> = Grid::new(
        vec![
            ColType::Px(10),
            ColType::Ratio(1),
            ColType::Px(10),
            ColType::Ratio(1),
            ColType::Px(10),
        ],
        vec![
            RowType::Px(10),
            RowType::Ratio(1),
            RowType::Px(10),
            RowType::Ratio(1),
            RowType::Px(10),
        ],
        vec![
            (Pos { x: 1, y: 1 }, UiEither::Second(sub)),
            (Pos { x: 3, y: 1 }, UiEither::First(button())),
            (Pos { x: 1, y: 3 }, UiEither::First(button())),
            (Pos { x: 3, y: 3 }, UiEither::First(button())),
        ],
    );
    place(&mut grid, &mut clip, Rect::new(0, 0, 50, 50));
    assert_eq!(grid_clicks(&grid), 0);
    click(&mut grid, &mut clip, 0, 0);
    assert_eq!(grid_clicks(&grid), 0);
    click(&mut grid, &mut clip, 11, 11);
    assert_eq!(grid_clicks(&grid), 0);
    click(&mut grid, &mut clip, 13, 13);
    assert_eq!(grid_clicks(&grid), 1);
    click(&mut grid, &mut clip, 15, 15);
    assert_eq!(grid_clicks(&grid), 1);
    click(&mut grid, &mut clip, 17, 17);
    assert_eq!(grid_clicks(&grid), 2);
    click(&mut grid, &mut clip, 21, 21);
    assert_eq!(grid_clicks(&grid), 2);
    click(&mut grid, &mut clip, 31, 11);
    assert_eq!(grid_clicks(&grid), 3);
    click(&mut grid, &mut clip, 11, 31);
    assert_eq!(grid_clicks(&grid), 4);
    click(&mut grid, &mut clip, 31, 31);
    assert_eq!(grid_clicks(&grid), 5);

    // The panel: seven buttons, each placed individually after the panel's
    // own geometry arrived, clicked at the same coordinates.
    let mut panel: Panel<(), (), Button> = Panel::new(vec![
        button(),
        button(),
        button(),
        button(),
        button(),
        button(),
        button(),
    ]);
    place(&mut panel, &mut clip, Rect::new(0, 0, 50, 50));
    let rects = [
        Rect::new(12, 12, 2, 2),
        Rect::new(12, 16, 2, 2),
        Rect::new(16, 12, 2, 2),
        Rect::new(16, 16, 2, 2),
        Rect::new(10, 30, 10, 10),
        Rect::new(30, 10, 10, 10),
        Rect::new(30, 30, 10, 10),
    ];
    for (i, r) in rects.iter().enumerate() {
        place(panel.get_mut(i), &mut clip, *r);
    }
    assert_eq!(panel_clicks(&panel), 0);
    click(&mut panel, &mut clip, 0, 0);
    assert_eq!(panel_clicks(&panel), 0);
    click(&mut panel, &mut clip, 11, 11);
    assert_eq!(panel_clicks(&panel), 0);
    click(&mut panel, &mut clip, 13, 13);
    assert_eq!(panel_clicks(&panel), 1);
    click(&mut panel, &mut clip, 15, 15);
    assert_eq!(panel_clicks(&panel), 1);
    click(&mut panel, &mut clip, 17, 17);
    assert_eq!(panel_clicks(&panel), 2);
    click(&mut panel, &mut clip, 21, 21);
    assert_eq!(panel_clicks(&panel), 2);
    click(&mut panel, &mut clip, 31, 11);
    assert_eq!(panel_clicks(&panel), 3);
    click(&mut panel, &mut clip, 11, 31);
    assert_eq!(panel_clicks(&panel), 4);
    click(&mut panel, &mut clip, 31, 31);
    assert_eq!(panel_clicks(&panel), 5);
}

#[test]
fn repeated_click_counts_twice() {
    let mut clip = Clipboard::new();
    let mut b = button();
    place(&mut b, &mut clip, Rect::new(10, 10, 20, 20));
    click(&mut b, &mut clip, 15, 15);
    click(&mut b, &mut clip, 15, 15);
    assert_eq!(b.activations(), 2);
}

#[test]
fn hover_tracking() {
    let mut clip = Clipboard::new();
    let mut b = button();
    place(&mut b, &mut clip, Rect::new(0, 0, 10, 10));
    let motion_inside = Event::MouseMotion {
        which: 0,
        buttons: red_ui::event::MouseButtons {
            left: false,
            middle: false,
            right: false,
        },
        x: 5,
        y: 5,
        moved_x: 1,
        moved_y: 1,
    };
    assert!(b.event(&mut clip, &motion_inside, &mut (), &mut ()).is_ok());
    assert!(b.hover());
    let motion_outside = Event::MouseMotion {
        which: 0,
        buttons: red_ui::event::MouseButtons {
            left: false,
            middle: false,
            right: false,
        },
        x: 50,
        y: 50,
        moved_x: 1,
        moved_y: 1,
    };
    assert!(b.event(&mut clip, &motion_outside, &mut (), &mut ()).is_ok());
    assert!(!b.hover());
}

#[test]
fn disabled_rect_ignores_clicks() {
    let mut clip = Clipboard::new();
    let mut b = UIRect::new(StateEnum::Showing, Color::new(1, 2, 3, 4)).action();
    place(&mut b, &mut clip, Rect::new(0, 0, 10, 10));
    click(&mut b, &mut clip, 5, 5);
    assert_eq!(b.activations(), 0);
}

#[test]
fn empty_widget_fails_every_operation() {
    let mut clip = Clipboard::new();
    let mut unit: () = ();
    let r = UserControl::<u8, u8>::event(
        &mut unit,
        &mut clip,
        &Event::KeyDown {
            key: red_ui::event::Key::Left,
        },
        &mut 0u8,
        &mut 0u8,
    );
    assert_eq!(r, Err(red_ui::user_control::UiError::EmptyWidget));
    assert_eq!(
        UserControl::<u8, u8>::surface(&unit, &0u8, &0u8),
        red_ui::zero()
    );
}
