//! The concrete widgets: containers and stateful leaves.
pub mod grid;
pub mod panel;
pub mod scroll_view;
pub mod text_box;
pub mod ui_rect;
