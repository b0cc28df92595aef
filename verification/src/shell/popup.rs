//! Where a popup may go: within the output that shows its window.

use vstd::prelude::*;

use crate::shell::hit::Element;
use crate::shell::Shell;
use crate::utils::geometry::{Point, Rectangle, Size};

verus! {

/// What an output shows, where that is not known.
pub open spec fn default_area() -> Rectangle {
    Rectangle { loc: Point { x: 0, y: 0 }, size: Size { w: 1920, h: 1080 } }
}

/// What an output shows, seen from a popup: relative to the contents of its window and to the
/// popups that it hangs from.
pub open spec fn popup_bounds(window: Element, output: Rectangle, offset: Point) -> Rectangle {
    Rectangle {
        loc: output.loc.spec_minus(window.spec_location()).spec_minus(
            window.geometry.loc,
        ).spec_minus(offset),
        size: output.size,
    }
}

impl Shell {
    /// The rectangle that a popup is to be kept in. `window` is the window that its parent
    /// surface belongs to, `output` the output that shows the window, with what it shows if
    /// that is known, and `offset` where the popups that it hangs from are. `None`: the popup
    /// is left where it is.
    pub fn unconstrain_popup(
        &self,
        window: Option<Element>,
        output: Option<Option<Rectangle>>,
        offset: Point,
    ) -> (r: Option<Rectangle>)
        ensures
            r == (match (window, output) {
                (Some(window), Some(area)) => Some(
                    popup_bounds(
                        window,
                        match area {
                            Some(area) => area,
                            None => default_area(),
                        },
                        offset,
                    ),
                ),
                _ => None,
            }),
    {
        match window {
            Some(window) => match output {
                Some(area) => {
                    let shown = match area {
                        Some(area) => area,
                        None => Rectangle {
                            loc: Point { x: 0, y: 0 },
                            size: Size { w: 1920, h: 1080 },
                        },
                    };
                    let location = match window.location {
                        Some(point) => point.as_point(),
                        None => Point { x: 0, y: 0 },
                    };
                    Some(
                        Rectangle {
                            loc: shown.loc.minus(location).minus(window.geometry.loc).minus(offset),
                            size: shown.size,
                        },
                    )
                },
                None => None,
            },
            None => None,
        }
    }
}

/// Seen from the global space again, the rectangle is what the output shows, as long as no
/// coordinate is cut off on the way.
pub proof fn law_bounds_are_the_output(window: Element, output: Rectangle, offset: Point)
    requires
        output.loc.minus_fits(window.spec_location()),
        output.loc.spec_minus(window.spec_location()).minus_fits(window.geometry.loc),
        output.loc.spec_minus(window.spec_location()).spec_minus(window.geometry.loc).minus_fits(
            offset,
        ),
    ensures
        ({
            let bounds = popup_bounds(window, output, offset);
            &&& bounds.size == output.size
            &&& bounds.loc.x + offset.x + window.geometry.loc.x + window.spec_location().x
                == output.loc.x
            &&& bounds.loc.y + offset.y + window.geometry.loc.y + window.spec_location().y
                == output.loc.y
        }),
{
}

} // verus!
