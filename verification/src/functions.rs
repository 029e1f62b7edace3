//! Per-widget display state, configured as data on each widget instance.
use vstd::prelude::*;

verus! {

/// How a widget currently presents itself: invisible, visible but inert, or
/// visible and reacting to input.
#[derive(Clone, Copy, Debug, PartialEq, Eq, Structural)]
pub enum StateEnum {
    Hidden,
    Showing,
    Enable,
}

} // verus!
