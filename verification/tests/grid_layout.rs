//! The layout engine: tiling, proportional allocation, the overflow error,
//! sparse occupancy, and the deferred-mutation drain.
use red_ui::clipboard::Clipboard;
use red_ui::draw::Color;
use red_ui::event::Event;
use red_ui::functions::StateEnum;
use red_ui::geometry::Rect;
use red_ui::ui_element::grid::{ColType, Grid, GridOp, Pos, RowType};
use red_ui::ui_element::ui_rect::UIRect;
use red_ui::user_control::{UiError, UserControl};

fn cell() -> UIRect {
    UIRect::new(StateEnum::Enable, Color::new(0, 0, 0, 255))
}

fn place(grid: &mut Grid<(), (), UIRect>, clip: &mut Clipboard, r: Rect) -> Result<(), UiError> {
    grid.event(clip, &Event::ElementMove { x: r.x, y: r.y }, &mut (), &mut ())?;
    grid.event(
        clip,
        &Event::ElementResize {
            width: r.width,
            height: r.height,
        },
        &mut (),
        &mut (),
    )
}

fn bounds_at(grid: &Grid<(), (), UIRect>, x: usize, y: usize) -> Rect {
    grid.get_element(x, y).expect("occupied cell").surface()
}

#[test]
fn grid_tiles_with_proportional_allocation() {
    let mut clip = Clipboard::new();
    // Columns: 20 fixed, then weights 1 and 3 over the remaining 80 pixels:
    // 20 and 60 pixels. Rows: weights 1 and 2 over 90 pixels: 30 and 60.
    let mut grid: Grid<(), (), UIRect> = Grid::new(
        vec![ColType::Px(20), ColType::Ratio(1), ColType::Ratio(3)],
        vec![RowType::Ratio(1), RowType::Ratio(2)],
        vec![
            (Pos { x: 0, y: 0 }, cell()),
            (Pos { x: 1, y: 0 }, cell()),
            (Pos { x: 2, y: 0 }, cell()),
            (Pos { x: 0, y: 1 }, cell()),
            (Pos { x: 1, y: 1 }, cell()),
            (Pos { x: 2, y: 1 }, cell()),
        ],
    );
    assert!(place(&mut grid, &mut clip, Rect::new(0, 0, 100, 90)).is_ok());
    assert_eq!(bounds_at(&grid, 0, 0), Rect::new(0, 0, 20, 30));
    assert_eq!(bounds_at(&grid, 1, 0), Rect::new(20, 0, 20, 30));
    assert_eq!(bounds_at(&grid, 2, 0), Rect::new(40, 0, 60, 30));
    assert_eq!(bounds_at(&grid, 0, 1), Rect::new(0, 30, 20, 60));
    assert_eq!(bounds_at(&grid, 1, 1), Rect::new(20, 30, 20, 60));
    assert_eq!(bounds_at(&grid, 2, 1), Rect::new(40, 30, 60, 60));
    // Every cell starts exactly where its neighbour ends, and the last ones
    // end exactly at the grid's far edges: no gaps, no overlaps.
}

#[test]
fn grid_translation_moves_every_cell() {
    let mut clip = Clipboard::new();
    let mut grid: Grid<(), (), UIRect> = Grid::new(
        vec![ColType::Ratio(1), ColType::Ratio(1)],
        vec![RowType::Ratio(1)],
        vec![(Pos { x: 0, y: 0 }, cell()), (Pos { x: 1, y: 0 }, cell())],
    );
    assert!(place(&mut grid, &mut clip, Rect::new(0, 0, 40, 10)).is_ok());
    assert!(grid
        .event(&mut clip, &Event::ElementMove { x: 7, y: 3 }, &mut (), &mut ())
        .is_ok());
    assert_eq!(bounds_at(&grid, 0, 0), Rect::new(7, 3, 20, 10));
    assert_eq!(bounds_at(&grid, 1, 0), Rect::new(27, 3, 20, 10));
}

#[test]
fn grid_overflow_is_an_error_not_a_clamp() {
    let mut clip = Clipboard::new();
    let mut grid: Grid<(), (), UIRect> = Grid::new(
        vec![ColType::Px(30), ColType::Px(30)],
        vec![RowType::Px(30), RowType::Px(30)],
        vec![(Pos { x: 0, y: 0 }, cell())],
    );
    let r = place(&mut grid, &mut clip, Rect::new(0, 0, 50, 50));
    assert_eq!(
        r,
        Err(UiError::Layout {
            req_width: 60,
            req_height: 60,
            avail_width: 50,
            avail_height: 50,
        })
    );
    // The occupant was never handed a clamped rectangle: it still has the
    // zero bounds it started with.
    assert_eq!(bounds_at(&grid, 0, 0), Rect::new(0, 0, 0, 0));
}

#[test]
fn grid_tolerates_sparse_and_out_of_range_cells() {
    let mut clip = Clipboard::new();
    let mut grid: Grid<(), (), UIRect> = Grid::new(
        vec![ColType::Ratio(1), ColType::Ratio(1)],
        vec![RowType::Ratio(1)],
        vec![(Pos { x: 1, y: 0 }, cell()), (Pos { x: 9, y: 9 }, cell())],
    );
    assert!(place(&mut grid, &mut clip, Rect::new(0, 0, 20, 10)).is_ok());
    assert_eq!(bounds_at(&grid, 1, 0), Rect::new(10, 0, 10, 10));
    // The out-of-range occupant is simply skipped.
    assert_eq!(bounds_at(&grid, 9, 9), Rect::new(0, 0, 0, 0));
    assert!(grid.get_element(0, 0).is_none());
}

#[test]
fn deferred_mutations_drain_once_per_tick_in_order() {
    let mut clip = Clipboard::new();
    let mut grid: Grid<(), (), UIRect> = Grid::new(
        vec![ColType::Ratio(1)],
        vec![RowType::Ratio(1)],
        vec![],
    );
    assert!(place(&mut grid, &mut clip, Rect::new(0, 0, 40, 40)).is_ok());

    // Three mutations queued before the tick...
    grid.state_manager.add(GridOp::SetCols(vec![ColType::Ratio(1), ColType::Ratio(1)]));
    grid.state_manager.add(GridOp::SetElement(Pos { x: 0, y: 0 }, cell()));
    grid.state_manager.add(GridOp::SetElement(Pos { x: 1, y: 0 }, cell()));
    assert!(grid.update(&mut clip, 16, &mut (), &mut ()).is_ok());
    // ...apply before this tick's layout re-run: the two new cells already
    // have their resolved bounds.
    assert_eq!(grid.cols().len(), 2);
    assert_eq!(bounds_at(&grid, 0, 0), Rect::new(0, 0, 20, 40));
    assert_eq!(bounds_at(&grid, 1, 0), Rect::new(20, 0, 20, 40));

    // Three more, queued after that drain, wait for the next frame...
    grid.state_manager.add(GridOp::RemoveElement(Pos { x: 1, y: 0 }));
    grid.state_manager.add(GridOp::SetCols(vec![ColType::Ratio(1)]));
    grid.state_manager.add(GridOp::SetElement(Pos { x: 0, y: 0 }, cell()));
    assert_eq!(grid.cols().len(), 2);
    assert!(grid.update(&mut clip, 16, &mut (), &mut ()).is_ok());
    // ...and each observes the state the previous one left.
    assert_eq!(grid.cols().len(), 1);
    assert!(grid.get_element(1, 0).is_none());
    assert_eq!(bounds_at(&grid, 0, 0), Rect::new(0, 0, 40, 40));
}

#[test]
fn clear_empties_the_grid() {
    let mut grid: Grid<(), (), UIRect> = Grid::new(
        vec![ColType::Px(5)],
        vec![RowType::Px(5)],
        vec![(Pos { x: 0, y: 0 }, cell())],
    );
    grid.clear();
    assert_eq!(grid.cols().len(), 0);
    assert_eq!(grid.rows().len(), 0);
    assert!(grid.get_element(0, 0).is_none());
}

#[test]
fn update_without_queued_mutations_runs_no_layout() {
    let mut clip = Clipboard::new();
    let mut grid: Grid<(), (), UIRect> = Grid::new(
        vec![ColType::Px(60)],
        vec![RowType::Px(60)],
        vec![(Pos { x: 0, y: 0 }, cell())],
    );
    // The grid is too small for its fixed demands, but with an empty queue
    // the tick re-runs no layout, so no error surfaces.
    let _ = place(&mut grid, &mut clip, Rect::new(0, 0, 50, 50));
    assert!(grid.update(&mut clip, 16, &mut (), &mut ()).is_ok());
}

#[test]
fn final_proportional_track_absorbs_the_rounding_remainder() {
    let mut clip = Clipboard::new();
    // Two equal weights over 5 remaining pixels: the rounded shares would
    // be 2 + 2; the final proportional column takes the leftover pixel, so
    // the axis tiles the grid edge to edge.
    let mut grid: Grid<(), (), UIRect> = Grid::new(
        vec![ColType::Px(5), ColType::Ratio(1), ColType::Ratio(1)],
        vec![RowType::Ratio(1)],
        vec![
            (Pos { x: 0, y: 0 }, cell()),
            (Pos { x: 1, y: 0 }, cell()),
            (Pos { x: 2, y: 0 }, cell()),
        ],
    );
    assert!(place(&mut grid, &mut clip, Rect::new(0, 0, 10, 7)).is_ok());
    assert_eq!(bounds_at(&grid, 0, 0), Rect::new(0, 0, 5, 7));
    assert_eq!(bounds_at(&grid, 1, 0), Rect::new(5, 0, 2, 7));
    assert_eq!(bounds_at(&grid, 2, 0), Rect::new(7, 0, 3, 7));
}

#[test]
fn resending_the_same_resize_is_a_no_op() {
    let mut clip = Clipboard::new();
    let mut grid: Grid<(), (), UIRect> = Grid::new(
        vec![ColType::Ratio(1)],
        vec![RowType::Ratio(1)],
        vec![(Pos { x: 0, y: 0 }, cell())],
    );
    assert!(place(&mut grid, &mut clip, Rect::new(0, 0, 40, 40)).is_ok());
    let again = Event::ElementResize {
        width: 40,
        height: 40,
    };
    assert!(grid.event(&mut clip, &again, &mut (), &mut ()).is_ok());
    assert_eq!(bounds_at(&grid, 0, 0), Rect::new(0, 0, 40, 40));
}

#[test]
fn track_specs_resolve_to_pixels() {
    assert_eq!(ColType::Px(7).to_px(100, 3), 7);
    assert_eq!(ColType::Ratio(1).to_px(100, 4), 25);
    assert_eq!(ColType::Ratio(3).to_px(100, 4), 75);
    assert_eq!(ColType::Ratio(1).to_px(100, 0), 0);
    assert_eq!(RowType::Ratio(2).to_px(90, 3), 60);
}
