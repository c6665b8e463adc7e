//! Where a click on the widget goes.
use vstd::prelude::*;

verus! {

/// Outside the circle clicks pass through; inside they drag the widget.
#[derive(Debug, Clone, Copy, PartialEq, Eq, Structural)]
pub enum WidgetHitZone {
    Transparent,
    Drag,
}

} // verus!
