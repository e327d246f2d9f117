//! Monitors as the capture provider reports them, and the choice of the
//! monitor that owns a selection.

use vstd::prelude::*;

use crate::bounding_box::{BoundingBox, Rect};
use crate::error::ScanError;

verus! {

/// A monitor's origin on the virtual desktop and its size in pixels.
#[derive(Clone, Copy, Debug, PartialEq, Eq, Structural)]
pub struct MonitorDescriptor {
    pub x: i32,
    pub y: i32,
    pub width: u32,
    pub height: u32,
}

impl MonitorDescriptor {
    /// The monitor's box can be written with `i32` coordinates.
    pub open spec fn wf(&self) -> bool {
        &&& self.width <= i32::MAX
        &&& self.height <= i32::MAX
        &&& self.x + self.width <= i32::MAX
        &&& self.y + self.height <= i32::MAX
    }

    /// The area of the virtual desktop that the monitor shows.
    pub open spec fn rect(&self) -> Rect {
        Rect {
            left: self.x as int,
            top: self.y as int,
            right: self.x + self.width,
            bottom: self.y + self.height,
        }
    }

    /// The monitor's box on the virtual desktop.
    pub fn bounding_box(&self) -> (r: BoundingBox)
        requires
            self.wf(),
        ensures
            r.wf(),
            r@ == self.rect(),
    {
        BoundingBox::new(self.x, self.y, self.width as i32, self.height as i32)
    }
}

/// Monitor `i` is the first, in enumeration order, whose box intersects `selection`.
pub open spec fn is_first_hit(selection: Rect, monitors: Seq<MonitorDescriptor>, i: int) -> bool {
    &&& 0 <= i < monitors.len()
    &&& monitors[i].rect().overlaps(selection)
    &&& forall|j: int| 0 <= j < i ==> !(#[trigger] monitors[j].rect()).overlaps(selection)
}

/// No monitor's box intersects `selection`.
pub open spec fn no_hit(selection: Rect, monitors: Seq<MonitorDescriptor>) -> bool {
    forall|j: int| 0 <= j < monitors.len() ==> !(#[trigger] monitors[j].rect()).overlaps(selection)
}

/// A selection has at most one owning monitor: the first hit in enumeration
/// order is unique, even where monitors overlap or touch.
pub proof fn lemma_first_hit_unique(
    selection: BoundingBox,
    monitors: Seq<MonitorDescriptor>,
    i: int,
    j: int,
)
    requires
        selection.wf(),
        is_first_hit(selection@, monitors, i),
        is_first_hit(selection@, monitors, j),
    ensures
        i == j,
{
    if i < j {
        assert(!monitors[i].rect().overlaps(selection@));
    } else if j < i {
        assert(!monitors[j].rect().overlaps(selection@));
    }
}


/// The index of the first monitor, in enumeration order, whose box
/// intersects the selection.
pub fn find_monitor_selected(
    selection_bound: &BoundingBox,
    monitors: &Vec<MonitorDescriptor>,
) -> (r: Result<usize, ScanError>)
    requires
        selection_bound.wf(),
        forall|i: int| 0 <= i < monitors.len() ==> (#[trigger] monitors[i]).wf(),
    ensures
        match r {
            Ok(i) => is_first_hit(selection_bound@, monitors@, i as int),
            Err(e) => e == ScanError::NoMonitorFound && no_hit(selection_bound@, monitors@),
        },
{
    let mut i: usize = 0;
    while i < monitors.len()
        invariant
            i <= monitors.len(),
            selection_bound.wf(),
            forall|k: int| 0 <= k < monitors.len() ==> (#[trigger] monitors[k]).wf(),
            forall|j: int|
                0 <= j < i ==> !(#[trigger] monitors@[j].rect()).overlaps(selection_bound@),
        decreases monitors.len() - i,
    {
        let monitor_box = monitors[i].bounding_box();
        if monitor_box.intersects(selection_bound) {
            return Ok(i);
        }
        i += 1;
    }
    Err(ScanError::NoMonitorFound)
}

} // verus!
