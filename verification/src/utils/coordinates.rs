//! Type-safe coordinate spaces.
//!
//! - Global: the plane that all outputs are laid out in.
//! - Output-relative: coordinates relative to a physical output, whose top-left
//!   corner is the origin.
//! - Virtual-output-relative: coordinates relative to the logical rectangle of a
//!   virtual output.
//!
//! The wrapper types keep a value of one space from being passed for another.

use vstd::prelude::*;
use vstd::std_specs::convert::FromSpecImpl;
use vstd::std_specs::ops::{AddSpecImpl, SubSpecImpl};

use crate::utils::geometry::{
    clamp_i32, saturating_difference, saturating_sum, Point, Rectangle, Size,
};

verus! {

/// A point in the global coordinate space.
#[derive(Debug, Clone, Copy, PartialEq, Eq, Structural)]
pub struct GlobalPoint(pub Point);

/// A point relative to a physical output.
#[derive(Debug, Clone, Copy, PartialEq, Eq, Structural)]
pub struct OutputRelativePoint(pub Point);

/// A point relative to a virtual output's logical rectangle.
#[derive(Debug, Clone, Copy, PartialEq, Eq, Structural)]
pub struct VirtualOutputRelativePoint(pub Point);

/// A rectangle in the global coordinate space.
#[derive(Debug, Clone, Copy, PartialEq, Eq, Structural)]
pub struct GlobalRect(pub Rectangle);

/// A rectangle relative to a physical output.
#[derive(Debug, Clone, Copy, PartialEq, Eq, Structural)]
pub struct OutputRelativeRect(pub Rectangle);

/// A rectangle relative to a virtual output's logical rectangle.
#[derive(Debug, Clone, Copy, PartialEq, Eq, Structural)]
pub struct VirtualOutputRelativeRect(pub Rectangle);

impl GlobalPoint {
    pub open spec fn spec_to_output_relative(self, output_position: GlobalPoint) -> OutputRelativePoint {
        OutputRelativePoint(self.0.spec_minus(output_position.0))
    }

    pub fn new(x: i32, y: i32) -> (r: GlobalPoint)
        ensures
            r == GlobalPoint(Point { x, y }),
    {
        GlobalPoint(Point { x, y })
    }

    /// Converts global coordinates to coordinates relative to the output at
    /// `output_position`.
    pub fn to_output_relative(self, output_position: GlobalPoint) -> (r: OutputRelativePoint)
        ensures
            r == self.spec_to_output_relative(output_position),
    {
        OutputRelativePoint(self.0.minus(output_position.0))
    }

    pub fn as_point(&self) -> (r: Point)
        ensures
            r == self.0,
    {
        self.0
    }
}

impl Default for GlobalPoint {
    /// The global origin.
    fn default() -> (r: GlobalPoint)
        ensures
            r == GlobalPoint(Point { x: 0, y: 0 }),
    {
        GlobalPoint(Point { x: 0, y: 0 })
    }
}

impl OutputRelativePoint {
    pub open spec fn spec_to_global(self, output_position: GlobalPoint) -> GlobalPoint {
        GlobalPoint(self.0.spec_plus(output_position.0))
    }

    pub open spec fn spec_offset_by(self, dx: i32, dy: i32) -> OutputRelativePoint {
        OutputRelativePoint(self.0.spec_plus(Point { x: dx, y: dy }))
    }

    pub fn new(x: i32, y: i32) -> (r: OutputRelativePoint)
        ensures
            r == OutputRelativePoint(Point { x, y }),
    {
        OutputRelativePoint(Point { x, y })
    }

    /// Converts output-relative coordinates to global coordinates.
    pub fn to_global(self, output_position: GlobalPoint) -> (r: GlobalPoint)
        ensures
            r == self.spec_to_global(output_position),
    {
        GlobalPoint(self.0.plus(output_position.0))
    }

    /// Moves the point by a delta.
    pub fn offset_by(self, dx: i32, dy: i32) -> (r: OutputRelativePoint)
        ensures
            r == self.spec_offset_by(dx, dy),
    {
        OutputRelativePoint(self.0.plus(Point { x: dx, y: dy }))
    }

    pub fn as_point(&self) -> (r: Point)
        ensures
            r == self.0,
    {
        self.0
    }
}

impl VirtualOutputRelativePoint {
    pub open spec fn spec_to_global(self, vout_global_position: GlobalPoint) -> GlobalPoint {
        GlobalPoint(self.0.spec_plus(vout_global_position.0))
    }

    pub fn new(x: i32, y: i32) -> (r: VirtualOutputRelativePoint)
        ensures
            r == VirtualOutputRelativePoint(Point { x, y }),
    {
        VirtualOutputRelativePoint(Point { x, y })
    }

    /// Converts virtual-output-relative coordinates to global coordinates.
    pub fn to_global(self, vout_global_position: GlobalPoint) -> (r: GlobalPoint)
        ensures
            r == self.spec_to_global(vout_global_position),
    {
        GlobalPoint(self.0.plus(vout_global_position.0))
    }

    /// Converts virtual-output-relative coordinates to coordinates relative to the
    /// output at `output_position`.
    pub fn to_output_relative(
        self,
        vout_global_position: GlobalPoint,
        output_position: GlobalPoint,
    ) -> (r: OutputRelativePoint)
        ensures
            r == self.spec_to_global(vout_global_position).spec_to_output_relative(output_position),
    {
        let global = self.to_global(vout_global_position);
        global.to_output_relative(output_position)
    }

    pub fn as_point(&self) -> (r: Point)
        ensures
            r == self.0,
    {
        self.0
    }
}

impl GlobalRect {
    pub fn new(loc: GlobalPoint, size: Size) -> (r: GlobalRect)
        ensures
            r == GlobalRect(Rectangle { loc: loc.0, size }),
    {
        GlobalRect(Rectangle { loc: loc.0, size })
    }

    /// The rectangle of the given size at the given location.
    pub fn from_loc_and_size(loc: GlobalPoint, size: Size) -> (r: GlobalRect)
        ensures
            r == GlobalRect(Rectangle { loc: loc.0, size }),
    {
        GlobalRect::new(loc, size)
    }

    pub fn location(&self) -> (r: GlobalPoint)
        ensures
            r == GlobalPoint(self.0.loc),
    {
        GlobalPoint(self.0.loc)
    }

    pub fn size(&self) -> (r: Size)
        ensures
            r == self.0.size,
    {
        self.0.size
    }

    pub fn as_rectangle(&self) -> (r: Rectangle)
        ensures
            r == self.0,
    {
        self.0
    }

    /// Whether the rectangle contains the point.
    pub fn contains(&self, point: Point) -> (r: bool)
        ensures
            r == self.0.spec_contains(point),
    {
        self.0.contains(point)
    }
}

impl OutputRelativeRect {
    pub fn new(loc: OutputRelativePoint, size: Size) -> (r: OutputRelativeRect)
        ensures
            r == OutputRelativeRect(Rectangle { loc: loc.0, size }),
    {
        OutputRelativeRect(Rectangle { loc: loc.0, size })
    }

    pub fn location(&self) -> (r: OutputRelativePoint)
        ensures
            r == OutputRelativePoint(self.0.loc),
    {
        OutputRelativePoint(self.0.loc)
    }

    pub fn size(&self) -> (r: Size)
        ensures
            r == self.0.size,
    {
        self.0.size
    }

    pub fn as_rectangle(&self) -> (r: Rectangle)
        ensures
            r == self.0,
    {
        self.0
    }
}

impl VirtualOutputRelativeRect {
    /// The area with `y_offset` rows cut off at the top.
    pub open spec fn spec_with_y_offset(area: VirtualOutputRelativeRect, y_offset: i32) -> VirtualOutputRelativeRect {
        VirtualOutputRelativeRect(
            Rectangle {
                loc: Point { x: area.0.loc.x, y: clamp_i32(area.0.loc.y + y_offset) as i32 },
                size: Size { w: area.0.size.w, h: clamp_i32(area.0.size.h - y_offset) as i32 },
            },
        )
    }

    pub fn new(loc: VirtualOutputRelativePoint, size: Size) -> (r: VirtualOutputRelativeRect)
        ensures
            r == VirtualOutputRelativeRect(Rectangle { loc: loc.0, size }),
    {
        VirtualOutputRelativeRect(Rectangle { loc: loc.0, size })
    }

    /// The rectangle of the given size at the given location.
    pub fn from_loc_and_size(loc: VirtualOutputRelativePoint, size: Size) -> (r: VirtualOutputRelativeRect)
        ensures
            r == VirtualOutputRelativeRect(Rectangle { loc: loc.0, size }),
    {
        VirtualOutputRelativeRect::new(loc, size)
    }

    /// Cuts `y_offset` rows off the top of an area, to leave room for a tab bar.
    pub fn with_y_offset(area: &VirtualOutputRelativeRect, y_offset: i32) -> (r: VirtualOutputRelativeRect)
        ensures
            r == VirtualOutputRelativeRect::spec_with_y_offset(*area, y_offset),
    {
        VirtualOutputRelativeRect(
            Rectangle {
                loc: Point { x: area.0.loc.x, y: saturating_sum(area.0.loc.y, y_offset) },
                size: Size { w: area.0.size.w, h: saturating_difference(area.0.size.h, y_offset) },
            },
        )
    }

    pub fn location(&self) -> (r: VirtualOutputRelativePoint)
        ensures
            r == VirtualOutputRelativePoint(self.0.loc),
    {
        VirtualOutputRelativePoint(self.0.loc)
    }

    pub fn size(&self) -> (r: Size)
        ensures
            r == self.0.size,
    {
        self.0.size
    }

    pub fn as_rectangle(&self) -> (r: Rectangle)
        ensures
            r == self.0,
    {
        self.0
    }
}

impl core::ops::Add<Point> for VirtualOutputRelativePoint {
    type Output = VirtualOutputRelativePoint;

    fn add(self, rhs: Point) -> (r: VirtualOutputRelativePoint) {
        VirtualOutputRelativePoint(self.0.plus(rhs))
    }
}

impl AddSpecImpl<Point> for VirtualOutputRelativePoint {
    open spec fn obeys_add_spec() -> bool {
        true
    }

    open spec fn add_req(self, rhs: Point) -> bool {
        true
    }

    open spec fn add_spec(self, rhs: Point) -> VirtualOutputRelativePoint {
        VirtualOutputRelativePoint(self.0.spec_plus(rhs))
    }
}

impl core::ops::Sub<Point> for VirtualOutputRelativePoint {
    type Output = VirtualOutputRelativePoint;

    fn sub(self, rhs: Point) -> (r: VirtualOutputRelativePoint) {
        VirtualOutputRelativePoint(self.0.minus(rhs))
    }
}

impl SubSpecImpl<Point> for VirtualOutputRelativePoint {
    open spec fn obeys_sub_spec() -> bool {
        true
    }

    open spec fn sub_req(self, rhs: Point) -> bool {
        true
    }

    open spec fn sub_spec(self, rhs: Point) -> VirtualOutputRelativePoint {
        VirtualOutputRelativePoint(self.0.spec_minus(rhs))
    }
}

impl core::ops::Add<GlobalPoint> for Point {
    type Output = GlobalPoint;

    fn add(self, rhs: GlobalPoint) -> (r: GlobalPoint) {
        GlobalPoint(self.plus(rhs.0))
    }
}

impl AddSpecImpl<GlobalPoint> for Point {
    open spec fn obeys_add_spec() -> bool {
        true
    }

    open spec fn add_req(self, rhs: GlobalPoint) -> bool {
        true
    }

    open spec fn add_spec(self, rhs: GlobalPoint) -> GlobalPoint {
        GlobalPoint(self.spec_plus(rhs.0))
    }
}

impl From<Point> for GlobalPoint {
    fn from(point: Point) -> (r: GlobalPoint) {
        GlobalPoint(point)
    }
}

impl FromSpecImpl<Point> for GlobalPoint {
    open spec fn obeys_from_spec() -> bool {
        true
    }

    open spec fn from_spec(point: Point) -> GlobalPoint {
        GlobalPoint(point)
    }
}

impl From<Point> for OutputRelativePoint {
    fn from(point: Point) -> (r: OutputRelativePoint) {
        OutputRelativePoint(point)
    }
}

impl FromSpecImpl<Point> for OutputRelativePoint {
    open spec fn obeys_from_spec() -> bool {
        true
    }

    open spec fn from_spec(point: Point) -> OutputRelativePoint {
        OutputRelativePoint(point)
    }
}

impl From<Point> for VirtualOutputRelativePoint {
    fn from(point: Point) -> (r: VirtualOutputRelativePoint) {
        VirtualOutputRelativePoint(point)
    }
}

impl FromSpecImpl<Point> for VirtualOutputRelativePoint {
    open spec fn obeys_from_spec() -> bool {
        true
    }

    open spec fn from_spec(point: Point) -> VirtualOutputRelativePoint {
        VirtualOutputRelativePoint(point)
    }
}

impl From<Rectangle> for GlobalRect {
    fn from(rect: Rectangle) -> (r: GlobalRect) {
        GlobalRect(rect)
    }
}

impl FromSpecImpl<Rectangle> for GlobalRect {
    open spec fn obeys_from_spec() -> bool {
        true
    }

    open spec fn from_spec(rect: Rectangle) -> GlobalRect {
        GlobalRect(rect)
    }
}

impl From<Rectangle> for OutputRelativeRect {
    fn from(rect: Rectangle) -> (r: OutputRelativeRect) {
        OutputRelativeRect(rect)
    }
}

impl FromSpecImpl<Rectangle> for OutputRelativeRect {
    open spec fn obeys_from_spec() -> bool {
        true
    }

    open spec fn from_spec(rect: Rectangle) -> OutputRelativeRect {
        OutputRelativeRect(rect)
    }
}

impl From<Rectangle> for VirtualOutputRelativeRect {
    fn from(rect: Rectangle) -> (r: VirtualOutputRelativeRect) {
        VirtualOutputRelativeRect(rect)
    }
}

impl FromSpecImpl<Rectangle> for VirtualOutputRelativeRect {
    open spec fn obeys_from_spec() -> bool {
        true
    }

    open spec fn from_spec(rect: Rectangle) -> VirtualOutputRelativeRect {
        VirtualOutputRelativeRect(rect)
    }
}

impl From<GlobalRect> for VirtualOutputRelativeRect {
    /// A global rectangle seen from its own corner: the same size, at the origin.
    fn from(rect: GlobalRect) -> (r: VirtualOutputRelativeRect) {
        VirtualOutputRelativeRect(Rectangle::from_size(rect.size()))
    }
}

impl FromSpecImpl<GlobalRect> for VirtualOutputRelativeRect {
    open spec fn obeys_from_spec() -> bool {
        true
    }

    open spec fn from_spec(rect: GlobalRect) -> VirtualOutputRelativeRect {
        VirtualOutputRelativeRect(Rectangle { loc: Point { x: 0, y: 0 }, size: rect.0.size })
    }
}

impl From<GlobalRect> for Rectangle {
    fn from(rect: GlobalRect) -> (r: Rectangle) {
        rect.0
    }
}

impl FromSpecImpl<GlobalRect> for Rectangle {
    open spec fn obeys_from_spec() -> bool {
        true
    }

    open spec fn from_spec(rect: GlobalRect) -> Rectangle {
        rect.0
    }
}

/// Going from global to output-relative coordinates and back gives the point one
/// started with.
pub proof fn law_global_round_trip(p: GlobalPoint, output_position: GlobalPoint)
    requires
        p.0.minus_fits(output_position.0),
    ensures
        p.spec_to_output_relative(output_position).spec_to_global(output_position) == p,
{
}

/// Going from output-relative to global coordinates and back gives the point one
/// started with.
pub proof fn law_output_relative_round_trip(p: OutputRelativePoint, output_position: GlobalPoint)
    requires
        p.0.plus_fits(output_position.0),
    ensures
        p.spec_to_global(output_position).spec_to_output_relative(output_position) == p,
{
}

/// Cutting rows off the top keeps the width, the left edge and the bottom edge.
pub proof fn law_y_offset_keeps_bottom(area: VirtualOutputRelativeRect, y_offset: i32)
    requires
        area.0.regular(),
        0 <= y_offset <= area.0.size.h,
    ensures
        ({
            let cut = VirtualOutputRelativeRect::spec_with_y_offset(area, y_offset);
            &&& cut.0.regular()
            &&& cut.0.bottom() == area.0.bottom()
            &&& cut.0.loc.x == area.0.loc.x
            &&& cut.0.size.w == area.0.size.w
            &&& cut.0.loc.y == area.0.loc.y + y_offset
        }),
{
}

/// A point relative to an output lies in the global space where the output lies, moved by its
/// coordinates; a point relative to a virtual output likewise. Seen from an output, a global
/// point has its coordinates less those of the output.
pub proof fn law_conversions(p: Point, origin: GlobalPoint)
    requires
        i32::MIN <= p.x + origin.0.x <= i32::MAX,
        i32::MIN <= p.y + origin.0.y <= i32::MAX,
        i32::MIN <= p.x - origin.0.x <= i32::MAX,
        i32::MIN <= p.y - origin.0.y <= i32::MAX,
    ensures
        OutputRelativePoint(p).spec_to_global(origin).0.x == p.x + origin.0.x,
        OutputRelativePoint(p).spec_to_global(origin).0.y == p.y + origin.0.y,
        VirtualOutputRelativePoint(p).spec_to_global(origin).0.x == p.x + origin.0.x,
        VirtualOutputRelativePoint(p).spec_to_global(origin).0.y == p.y + origin.0.y,
        GlobalPoint(p).spec_to_output_relative(origin).0.x == p.x - origin.0.x,
        GlobalPoint(p).spec_to_output_relative(origin).0.y == p.y - origin.0.y,
        OutputRelativePoint(p).spec_offset_by(origin.0.x, origin.0.y).0.x == p.x + origin.0.x,
        OutputRelativePoint(p).spec_offset_by(origin.0.x, origin.0.y).0.y == p.y + origin.0.y,
{
}

} // verus!
