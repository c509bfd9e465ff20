//! The protocol by which the loop drives the view tree.
//!
//! The loop only needs two capabilities of a view: compute a layout size and
//! draw. The layout arithmetic and drawing primitives themselves are outside
//! collaborators; here sizes are plain values in thousandths of a logical
//! unit, matching `event::Point`.

use vstd::prelude::*;

verus! {

/// A size in logical units, stored in thousandths.
#[derive(Clone, Copy, PartialEq, Eq, Structural, Debug)]
pub struct LocalSize {
    pub width: i64,
    pub height: i64,
}

/// Capability interface of a view: the event loop drives every view through
/// these two operations, first layout, then drawing.
pub trait UiView {
    /// Compute the size this view occupies when offered `proposed`.
    fn layout(&self, id: u64, proposed: LocalSize) -> LocalSize;

    /// Draw the view. Drawing submits primitives to the render collaborator
    /// and computes nothing the loop reads.
    fn draw(&self, id: u64);
}

/// A view that draws nothing and occupies no space.
pub struct EmptyView {}

impl UiView for EmptyView {
    fn layout(&self, _id: u64, _proposed: LocalSize) -> (sz: LocalSize)
        ensures
            sz == (LocalSize { width: 0, height: 0 }),
    {
        LocalSize { width: 0, height: 0 }
    }

    fn draw(&self, _id: u64) {
    }
}

impl crate::event_loop::Sealed for EmptyView {

}

} // verus!
