//! Finding what is under a point: windows, surfaces and outputs.
//!
//! A point is given by its coordinates rounded down: a rectangle of whole pixels
//! contains the one exactly if it contains the other.

use vstd::prelude::*;

use crate::shell::tiling::WindowId;
use crate::shell::Shell;
use crate::utils::coordinates::GlobalPoint;
use crate::utils::geometry::{fits_i32, Point, Rectangle};
use crate::utils::lists;
use crate::utils::search::{
    first_below, lemma_first_below, lemma_is_first_below, lemma_none_below,
};

verus! {

/// A window on the screen: where it is, what it covers with its decorations, the rectangle
/// of its content in it, and whether it is fullscreen.
#[derive(Debug, Clone, Copy, PartialEq, Eq, Structural)]
pub struct Element {
    pub window: WindowId,
    pub location: Option<GlobalPoint>,
    pub bbox: Rectangle,
    pub geometry: Rectangle,
    pub fullscreen: bool,
}

/// A physical output and the part of the global space that it shows.
#[derive(Debug, Clone, Copy, PartialEq, Eq, Structural)]
pub struct OutputArea {
    pub output: u64,
    pub geometry: Rectangle,
}

impl Element {
    /// Where the window is; the origin, where that is not known.
    pub open spec fn spec_location(self) -> Point {
        match self.location {
            Some(p) => p.0,
            None => Point { x: 0, y: 0 },
        }
    }

    /// What the window covers with its decorations, in global coordinates.
    pub open spec fn global_bbox(self) -> Rectangle {
        Rectangle { loc: self.spec_location().spec_plus(self.bbox.loc), size: self.bbox.size }
    }

    /// What the window covers for hit tests: its content if it is fullscreen, since its
    /// decorations are then off the screen, else all of it.
    pub open spec fn hit_rect(self) -> Rectangle {
        if self.fullscreen {
            Rectangle { loc: self.spec_location(), size: self.geometry.size }
        } else {
            self.global_bbox()
        }
    }

    /// By how much a fullscreen window's content is shifted in its surface.
    pub open spec fn hidden_offset(self) -> Point {
        if self.fullscreen {
            self.geometry.loc
        } else {
            Point { x: 0, y: 0 }
        }
    }

    /// The part of the global space that the window's content takes up.
    pub open spec fn content_rect(self) -> Rectangle {
        Rectangle { loc: self.spec_location(), size: self.geometry.size }
    }

    fn place(&self) -> (r: Point)
        ensures
            r == self.spec_location(),
    {
        match self.location {
            Some(p) => p.as_point(),
            None => Point { x: 0, y: 0 },
        }
    }

    /// What the window covers with its decorations, in global coordinates.
    fn covered(&self) -> (r: Rectangle)
        ensures
            r == self.global_bbox(),
    {
        Rectangle { loc: self.place().plus(self.bbox.loc), size: self.bbox.size }
    }

    /// What the window covers for hit tests.
    pub fn hit_test_rect(&self) -> (r: Rectangle)
        ensures
            r == self.hit_rect(),
    {
        if self.fullscreen {
            Rectangle { loc: self.place(), size: self.geometry.size }
        } else {
            self.covered()
        }
    }

    /// What to subtract from a global point, and then to add to it, to get the point of
    /// the window's surface that is there.
    pub fn surface_translation(&self) -> (r: (Point, Point))
        ensures
            r == (self.spec_location(), self.hidden_offset()),
    {
        let offset = if self.fullscreen {
            self.geometry.loc
        } else {
            Point { x: 0, y: 0 }
        };
        (self.place(), offset)
    }
}

/// Whether the window at a place covers the point.
pub open spec fn covers_point(elements: Seq<Element>, point: Point) -> spec_fn(int) -> bool {
    |i: int| elements[i].global_bbox().spec_contains(point)
}

impl Shell {
    /// The first window listed that covers the point.
    pub fn window_under(&self, elements: &Vec<Element>, point: Point) -> (r: Option<WindowId>)
        ensures
            r == (match first_below(elements@.len(), covers_point(elements@, point)) {
                Some(i) => Some(elements@[i].window),
                None => None,
            }),
    {
        let ghost p = covers_point(elements@, point);
        let mut i: usize = 0;
        while i < elements.len()
            invariant
                i <= elements@.len(),
                p == covers_point(elements@, point),
                forall|k: int| 0 <= k < i ==> !(#[trigger] p(k)),
            decreases elements@.len() - i,
        {
            if elements[i].covered().contains(point) {
                proof {
                    assert(p(i as int));
                    lemma_is_first_below(elements@.len(), p, i as int);
                }
                return Some(elements[i].window);
            }
            assert(!p(i as int));
            i = i + 1;
        }
        proof {
            lemma_none_below(elements@.len(), p);
        }
        None
    }
}

/// Whether the output at a place shows the point.
pub open spec fn shows_point(outputs: Seq<OutputArea>, point: Point) -> spec_fn(int) -> bool {
    |i: int| outputs[i].geometry.spec_contains(point)
}

/// Place of the output that shows the point.
pub open spec fn output_with(outputs: Seq<OutputArea>, point: Point) -> Option<int> {
    first_below(outputs.len(), shows_point(outputs, point))
}

/// Place of the output that shows the point.
fn find_output_with(outputs: &Vec<OutputArea>, point: Point) -> (r: Option<usize>)
    ensures
        match r {
            Some(i) => i < outputs@.len() && output_with(outputs@, point) == Some(i as int),
            None => output_with(outputs@, point) is None,
        },
{
    let ghost p = shows_point(outputs@, point);
    let mut i: usize = 0;
    while i < outputs.len()
        invariant
            i <= outputs@.len(),
            p == shows_point(outputs@, point),
            forall|k: int| 0 <= k < i ==> !(#[trigger] p(k)),
        decreases outputs@.len() - i,
    {
        if outputs[i].geometry.contains(point) {
            proof {
                assert(p(i as int));
                lemma_is_first_below(outputs@.len(), p, i as int);
            }
            return Some(i);
        }
        assert(!p(i as int));
        i = i + 1;
    }
    proof {
        lemma_none_below(outputs@.len(), p);
    }
    None
}

impl Shell {
    /// The output that shows the point.
    pub fn output_at(&self, outputs: &Vec<OutputArea>, point: Point) -> (r: Option<u64>)
        ensures
            r == (match output_with(outputs@, point) {
                Some(i) => Some(outputs@[i].output),
                None => None,
            }),
    {
        match find_output_with(outputs, point) {
            Some(i) => Some(outputs[i].output),
            None => None,
        }
    }
}

/// A surface that the point lies on, with its place in the window or layer asked.
#[derive(Debug, Clone, Copy, PartialEq, Eq, Structural)]
pub struct SurfaceHit {
    pub surface: u64,
    pub location: Point,
}

/// A surface of a layer that the point lies on, and the place of the layer on its output.
#[derive(Debug, Clone, Copy, PartialEq, Eq, Structural)]
pub struct LayerHit {
    pub hit: SurfaceHit,
    pub layer_location: Point,
}

/// The surfaces that the point lies on in the four layers of an output.
#[derive(Debug, Clone, Copy, PartialEq, Eq, Structural)]
pub struct LayerHits {
    pub overlay: Option<LayerHit>,
    pub top: Option<LayerHit>,
    pub bottom: Option<LayerHit>,
    pub background: Option<LayerHit>,
}

/// A layer's surface with its place in the global space.
pub open spec fn layer_surface(hit: LayerHit, output: Rectangle) -> SurfaceHit {
    SurfaceHit {
        surface: hit.hit.surface,
        location: hit.hit.location.spec_plus(hit.layer_location).spec_plus(output.loc),
    }
}

/// A window's surface with its place in the global space.
pub open spec fn window_surface(hit: SurfaceHit, element: Element) -> SurfaceHit {
    SurfaceHit {
        surface: hit.surface,
        location: hit.location.spec_plus(element.spec_location()).spec_minus(
            element.hidden_offset(),
        ),
    }
}

/// Whether the window at a place is hit and has a surface there.
pub open spec fn window_hit(elements: Seq<Element>, hits: Seq<Option<SurfaceHit>>, point: Point) -> spec_fn(int) -> bool {
    |i: int| elements[i].hit_rect().spec_contains(point) && hits[i] is Some
}

/// The surface under a point: of the overlay, the top layer, the windows in the order of
/// the list, the bottom layer and the background, the first that has one there.
pub open spec fn surface_at(
    outputs: Seq<OutputArea>,
    elements: Seq<Element>,
    hits: Seq<Option<SurfaceHit>>,
    layers: LayerHits,
    point: Point,
) -> Option<SurfaceHit> {
    match output_with(outputs, point) {
        None => None,
        Some(o) => {
            let output = outputs[o].geometry;
            match (layers.overlay, layers.top) {
                (Some(hit), _) => Some(layer_surface(hit, output)),
                (None, Some(hit)) => Some(layer_surface(hit, output)),
                (None, None) => match first_below(
                    elements.len(),
                    window_hit(elements, hits, point),
                ) {
                    Some(i) => Some(window_surface(hits[i].unwrap(), elements[i])),
                    None => match (layers.bottom, layers.background) {
                        (Some(hit), _) => Some(layer_surface(hit, output)),
                        (None, Some(hit)) => Some(layer_surface(hit, output)),
                        (None, None) => None,
                    },
                },
            }
        },
    }
}

fn place_layer(hit: &LayerHit, output: &Rectangle) -> (r: SurfaceHit)
    ensures
        r == layer_surface(*hit, *output),
{
    SurfaceHit {
        surface: hit.hit.surface,
        location: hit.hit.location.plus(hit.layer_location).plus(output.loc),
    }
}

impl Shell {
    /// The surface under a point, with its place in the global space. `hits` holds, for each
    /// window, the surface that it has at the point, and `layers` the same for the layers of
    /// the output that shows the point.
    pub fn surface_under(
        &self,
        outputs: &Vec<OutputArea>,
        elements: &Vec<Element>,
        hits: &Vec<Option<SurfaceHit>>,
        layers: &LayerHits,
        point: Point,
    ) -> (r: Option<SurfaceHit>)
        requires
            hits@.len() == elements@.len(),
        ensures
            r == surface_at(outputs@, elements@, hits@, *layers, point),
    {
        let output = match find_output_with(outputs, point) {
            Some(i) => outputs[i].geometry,
            None => {
                return None;
            },
        };
        match layers.overlay {
            Some(hit) => {
                return Some(place_layer(&hit, &output));
            },
            None => {},
        }
        match layers.top {
            Some(hit) => {
                return Some(place_layer(&hit, &output));
            },
            None => {},
        }
        let ghost p = window_hit(elements@, hits@, point);
        let mut i: usize = 0;
        while i < elements.len()
            invariant
                i <= elements@.len(),
                hits@.len() == elements@.len(),
                p == window_hit(elements@, hits@, point),
                forall|k: int| 0 <= k < i ==> !(#[trigger] p(k)),
                layers.overlay is None,
                layers.top is None,
                output_with(outputs@, point) is Some,
                output == outputs@[output_with(outputs@, point).unwrap()].geometry,
            decreases elements@.len() - i,
        {
            if elements[i].hit_test_rect().contains(point) {
                match hits[i] {
                    Some(hit) => {
                        proof {
                            assert(p(i as int));
                            lemma_is_first_below(elements@.len(), p, i as int);
                        }
                        let (location, offset) = elements[i].surface_translation();
                        return Some(
                            SurfaceHit {
                                surface: hit.surface,
                                location: hit.location.plus(location).minus(offset),
                            },
                        );
                    },
                    None => {},
                }
            }
            assert(!p(i as int));
            i = i + 1;
        }
        proof {
            lemma_none_below(elements@.len(), p);
        }
        match layers.bottom {
            Some(hit) => {
                return Some(place_layer(&hit, &output));
            },
            None => {},
        }
        match layers.background {
            Some(hit) => Some(place_layer(&hit, &output)),
            None => None,
        }
    }
}

/// Whether the output at a place shows a part of the rectangle.
pub open spec fn shows_part(outputs: Seq<OutputArea>, rect: Rectangle) -> spec_fn(int) -> bool {
    |i: int| outputs[i].geometry.spec_overlaps(rect)
}

/// Place of the first output that shows a part of a window; none, where it is not known
/// where the window is.
pub open spec fn output_showing(outputs: Seq<OutputArea>, element: Element) -> Option<int> {
    if element.location is Some {
        first_below(outputs.len(), shows_part(outputs, element.content_rect()))
    } else {
        None
    }
}

/// Whether the window at a place is one of the owners and some output shows it.
pub open spec fn owner_shown(
    outputs: Seq<OutputArea>,
    elements: Seq<Element>,
    owners: Seq<WindowId>,
) -> spec_fn(int) -> bool {
    |i: int|
        owners.contains(elements[i].window) && output_showing(outputs, elements[i]) is Some
}

/// The output that shows the first of the owners that some output shows.
pub open spec fn shown_output(
    outputs: Seq<OutputArea>,
    elements: Seq<Element>,
    owners: Seq<WindowId>,
) -> Option<u64> {
    match first_below(elements.len(), owner_shown(outputs, elements, owners)) {
        Some(i) => Some(outputs[output_showing(outputs, elements[i]).unwrap()].output),
        None => None,
    }
}

fn find_output_showing(outputs: &Vec<OutputArea>, element: &Element) -> (r: Option<usize>)
    ensures
        match r {
            Some(i) => i < outputs@.len() && output_showing(outputs@, *element) == Some(i as int),
            None => output_showing(outputs@, *element) is None,
        },
{
    if element.location.is_none() {
        return None;
    }
    let rect = Rectangle { loc: element.place(), size: element.geometry.size };
    let ghost p = shows_part(outputs@, rect);
    let mut i: usize = 0;
    while i < outputs.len()
        invariant
            i <= outputs@.len(),
            rect == element.content_rect(),
            element.location is Some,
            p == shows_part(outputs@, rect),
            forall|k: int| 0 <= k < i ==> !(#[trigger] p(k)),
        decreases outputs@.len() - i,
    {
        if outputs[i].geometry.overlaps(&rect) {
            proof {
                assert(p(i as int));
                lemma_is_first_below(outputs@.len(), p, i as int);
            }
            return Some(i);
        }
        assert(!p(i as int));
        i = i + 1;
    }
    proof {
        lemma_none_below(outputs@.len(), p);
    }
    None
}

impl Shell {
    /// The output that a surface is visible on. `owners` lists the windows that the surface
    /// belongs to; the first of them that some output shows decides.
    pub fn visible_output_for_surface(
        &self,
        outputs: &Vec<OutputArea>,
        elements: &Vec<Element>,
        owners: &Vec<WindowId>,
    ) -> (r: Option<u64>)
        ensures
            r == shown_output(outputs@, elements@, owners@),
    {
        let ghost p = owner_shown(outputs@, elements@, owners@);
        let mut i: usize = 0;
        while i < elements.len()
            invariant
                i <= elements@.len(),
                p == owner_shown(outputs@, elements@, owners@),
                forall|k: int| 0 <= k < i ==> !(#[trigger] p(k)),
            decreases elements@.len() - i,
        {
            if lists::contains(owners, elements[i].window) {
                match find_output_showing(outputs, &elements[i]) {
                    Some(k) => {
                        proof {
                            assert(p(i as int));
                            lemma_is_first_below(elements@.len(), p, i as int);
                        }
                        return Some(outputs[k].output);
                    },
                    None => {},
                }
            }
            assert(!p(i as int));
            i = i + 1;
        }
        proof {
            lemma_none_below(elements@.len(), p);
        }
        None
    }
}

/// The windows of which an output shows a part, in the order of the list.
pub open spec fn windows_shown(elements: Seq<Element>, output: Rectangle) -> Seq<WindowId>
    decreases elements.len(),
{
    if elements.len() == 0 {
        Seq::empty()
    } else {
        let before = windows_shown(elements.drop_last(), output);
        let e = elements.last();
        if e.location is Some && output.spec_overlaps(e.content_rect()) {
            before.push(e.window)
        } else {
            before
        }
    }
}

/// The windows whose presentation feedback belongs to an output: those of which it shows
/// a part.
pub fn windows_on_output(elements: &Vec<Element>, output: &Rectangle) -> (r: Vec<WindowId>)
    ensures
        r@ == windows_shown(elements@, *output),
{
    let mut list: Vec<WindowId> = Vec::new();
    let mut i: usize = 0;
    while i < elements.len()
        invariant
            i <= elements@.len(),
            list@ == windows_shown(elements@.take(i as int), *output),
        decreases elements@.len() - i,
    {
        proof {
            assert(elements@.take(i + 1).drop_last() =~= elements@.take(i as int));
            assert(elements@.take(i + 1).last() == elements@[i as int]);
        }
        if elements[i].location.is_some() {
            let rect = Rectangle { loc: elements[i].place(), size: elements[i].geometry.size };
            if output.overlaps(&rect) {
                list.push(elements[i].window);
            }
        }
        i = i + 1;
    }
    assert(elements@.take(i as int) =~= elements@);
    list
}

/// Overlay and top layers come before all windows, and windows before the bottom layer
/// and the background.
pub proof fn law_surface_order(
    outputs: Seq<OutputArea>,
    elements: Seq<Element>,
    hits: Seq<Option<SurfaceHit>>,
    layers: LayerHits,
    point: Point,
    o: int,
)
    requires
        output_with(outputs, point) == Some(o),
    ensures
        layers.overlay matches Some(hit) ==> surface_at(outputs, elements, hits, layers, point)
            == Some(layer_surface(hit, outputs[o].geometry)),
        layers.overlay is None ==> (layers.top matches Some(hit) ==> surface_at(
            outputs,
            elements,
            hits,
            layers,
            point,
        ) == Some(layer_surface(hit, outputs[o].geometry))),
        layers.overlay is None && layers.top is None ==> (first_below(
            elements.len(),
            window_hit(elements, hits, point),
        ) matches Some(i) ==> surface_at(outputs, elements, hits, layers, point) == Some(
            window_surface(hits[i].unwrap(), elements[i]),
        )),
{
}

/// Whether a surface in a layer of an output is what was found: it, at its place in the layer,
/// moved by the layer's place on the output and by the output's.
pub open spec fn found_in_layer(found: Option<SurfaceHit>, layer: LayerHit, output: Rectangle) -> bool {
    let x = layer.hit.location.x + layer.layer_location.x;
    let y = layer.hit.location.y + layer.layer_location.y;
    &&& found is Some
    &&& found.unwrap().surface == layer.hit.surface
    &&& fits_i32(x) && fits_i32(x + output.loc.x) ==> found.unwrap().location.x == x + output.loc.x
    &&& fits_i32(y) && fits_i32(y + output.loc.y) ==> found.unwrap().location.y == y + output.loc.y
}

/// Whether a window covers a point for the pointer: with its content alone if it is fullscreen,
/// else with its decorations too.
pub open spec fn catches(e: Element, p: Point) -> bool {
    let at = match e.location {
        Some(at) => at.0,
        None => Point { x: 0, y: 0 },
    };
    let r = if e.fullscreen {
        Rectangle { loc: at, size: e.geometry.size }
    } else {
        Rectangle { loc: at.spec_plus(e.bbox.loc), size: e.bbox.size }
    };
    &&& r.loc.x <= p.x < r.loc.x + r.size.w
    &&& r.loc.y <= p.y < r.loc.y + r.size.h
}

/// The surface found at a point of an output is that of the frontmost thing that has one
/// there: the overlay, then the top layer, then the windows in the order of the list, then the
/// bottom layer, then the background. Where none has one, none is found.
pub proof fn law_frontmost_surface(
    outputs: Seq<OutputArea>,
    elements: Seq<Element>,
    hits: Seq<Option<SurfaceHit>>,
    layers: LayerHits,
    point: Point,
    o: int,
    i: int,
)
    requires
        0 <= o < outputs.len(),
        outputs[o].geometry.spec_contains(point),
        forall|j: int| 0 <= j < o ==> !(#[trigger] outputs[j]).geometry.spec_contains(point),
        point.x < i32::MAX,
        point.y < i32::MAX,
        forall|j: int|
            0 <= j < elements.len() ==> (#[trigger] elements[j]).hit_rect().regular(),
    ensures
        ({
            let found = surface_at(outputs, elements, hits, layers, point);
            let output = outputs[o].geometry;
            let no_window = forall|j: int|
                0 <= j < elements.len() ==> !(catches(#[trigger] elements[j], point)
                    && hits[j] is Some);
            &&& layers.overlay matches Some(hit) ==> found_in_layer(found, hit, output)
            &&& layers.overlay is None ==> (layers.top matches Some(hit) ==> found_in_layer(
                found,
                hit,
                output,
            ))
            &&& layers.overlay is None && layers.top is None && 0 <= i < elements.len() && catches(
                elements[i],
                point,
            ) && hits[i] is Some && (forall|j: int|
                0 <= j < i ==> !(catches(#[trigger] elements[j], point) && hits[j] is Some))
                ==> found is Some && found.unwrap().surface == hits[i].unwrap().surface
            &&& layers.overlay is None && layers.top is None && no_window ==> (
            layers.bottom matches Some(hit) ==> found_in_layer(found, hit, output))
            &&& layers.overlay is None && layers.top is None && no_window && layers.bottom is None
                ==> (layers.background matches Some(hit) ==> found_in_layer(found, hit, output))
            &&& layers.overlay is None && layers.top is None && no_window && layers.bottom is None
                && layers.background is None ==> found is None
        }),
{
    lemma_is_first_below(outputs.len(), shows_point(outputs, point), o);
    let p = window_hit(elements, hits, point);
    assert forall|j: int| 0 <= j < elements.len() implies (#[trigger] p(j) <==> catches(
        elements[j],
        point,
    ) && hits[j] is Some) by {
        assert(elements[j].hit_rect().regular());
    }
    if 0 <= i < elements.len() && p(i) && (forall|j: int|
        0 <= j < i ==> !(catches(#[trigger] elements[j], point) && hits[j] is Some)) {
        assert forall|j: int| 0 <= j < i implies !(#[trigger] p(j)) by {
            assert(!(catches(elements[j], point) && hits[j] is Some));
        }
        lemma_is_first_below(elements.len(), p, i);
    }
    if forall|j: int|
        0 <= j < elements.len() ==> !(catches(#[trigger] elements[j], point) && hits[j] is Some) {
        assert forall|j: int| 0 <= j < elements.len() implies !(#[trigger] p(j)) by {
            assert(!(catches(elements[j], point) && hits[j] is Some));
        }
        lemma_none_below(elements.len(), p);
    }
}

/// A surface that a window has at a point lies in the global space where it lies in the window,
/// moved by the window's place; a fullscreen window's content is moved to that place, whatever
/// decorations lie before it.
pub proof fn law_window_surface_place(hit: SurfaceHit, e: Element)
    requires
        e.location is Some,
    ensures
        ({
            let r = window_surface(hit, e);
            let at = e.location.unwrap().0;
            let dx: int = if e.fullscreen {
                e.geometry.loc.x as int
            } else {
                0
            };
            let dy: int = if e.fullscreen {
                e.geometry.loc.y as int
            } else {
                0
            };
            &&& r.surface == hit.surface
            &&& fits_i32(hit.location.x + at.x) && fits_i32(hit.location.x + at.x - dx)
                ==> r.location.x == hit.location.x + at.x - dx
            &&& fits_i32(hit.location.y + at.y) && fits_i32(hit.location.y + at.y - dy)
                ==> r.location.y == hit.location.y + at.y - dy
        }),
{
}

/// A point on no output is on no surface.
pub proof fn law_off_screen(
    outputs: Seq<OutputArea>,
    elements: Seq<Element>,
    hits: Seq<Option<SurfaceHit>>,
    layers: LayerHits,
    point: Point,
)
    requires
        forall|i: int| 0 <= i < outputs.len() ==> !(#[trigger] outputs[i]).geometry.spec_contains(point),
    ensures
        surface_at(outputs, elements, hits, layers, point) is None,
{
    let p = shows_point(outputs, point);
    assert forall|j: int| 0 <= j < outputs.len() implies !(#[trigger] p(j)) by {
        assert(!outputs[j].geometry.spec_contains(point));
    }
    lemma_none_below(outputs.len(), p);
}

/// The window under a point is the first listed whose rectangle, moved to the window's place,
/// holds the point. What a window covers for the pointer is that too, or its content alone if it
/// is fullscreen.
pub proof fn law_window_covers(e: Element, p: Point)
    requires
        e.location is Some,
        e.bbox.size.wf(),
        e.geometry.size.wf(),
        -0x2000_0000 <= e.location.unwrap().0.x <= 0x2000_0000,
        -0x2000_0000 <= e.location.unwrap().0.y <= 0x2000_0000,
        -0x2000_0000 <= e.bbox.loc.x <= 0x2000_0000,
        -0x2000_0000 <= e.bbox.loc.y <= 0x2000_0000,
        e.bbox.size.w <= 0x2000_0000,
        e.bbox.size.h <= 0x2000_0000,
        e.geometry.size.w <= 0x2000_0000,
        e.geometry.size.h <= 0x2000_0000,
    ensures
        ({
            let at = e.location.unwrap().0;
            let on_box = 0 <= p.x - at.x - e.bbox.loc.x < e.bbox.size.w && 0 <= p.y - at.y
                - e.bbox.loc.y < e.bbox.size.h;
            let on_content = 0 <= p.x - at.x < e.geometry.size.w && 0 <= p.y - at.y
                < e.geometry.size.h;
            &&& e.global_bbox().spec_contains(p) <==> on_box
            &&& e.fullscreen ==> (e.hit_rect().spec_contains(p) <==> on_content)
            &&& !e.fullscreen ==> (e.hit_rect().spec_contains(p) <==> on_box)
            &&& e.content_rect().spec_contains(p) <==> on_content
        }),
{
}

/// The output that a surface is visible on is the first that shows a part of the first window
/// listed that the surface belongs to and that some output shows. A window whose place is not
/// known is shown on none.
pub proof fn law_visible_output(
    outputs: Seq<OutputArea>,
    elements: Seq<Element>,
    owners: Seq<WindowId>,
    i: int,
    o: int,
)
    ensures
        ({
            let shows = |e: Element, k: int|
                e.location is Some && outputs[k].geometry.spec_overlaps(
                    Rectangle { loc: e.location.unwrap().0, size: e.geometry.size },
                );
            let on_screen = |e: Element|
                exists|k: int| 0 <= k < outputs.len() && #[trigger] shows(e, k);
            &&& 0 <= i < elements.len() && owners.contains(elements[i].window) && (forall|j: int|
                0 <= j < i ==> !(owners.contains((#[trigger] elements[j]).window) && on_screen(
                    elements[j],
                ))) && 0 <= o < outputs.len() && shows(elements[i], o) && (forall|k: int|
                0 <= k < o ==> !#[trigger] shows(elements[i], k)) ==> shown_output(
                outputs,
                elements,
                owners,
            ) == Some(outputs[o].output)
            &&& (forall|j: int|
                0 <= j < elements.len() ==> !(owners.contains((#[trigger] elements[j]).window)
                    && on_screen(elements[j]))) ==> shown_output(outputs, elements, owners) is None
        }),
{
    let shows = |e: Element, k: int|
        e.location is Some && outputs[k].geometry.spec_overlaps(
            Rectangle { loc: e.location.unwrap().0, size: e.geometry.size },
        );
    let on_screen = |e: Element|
        exists|k: int| 0 <= k < outputs.len() && #[trigger] shows(e, k);
    let p = owner_shown(outputs, elements, owners);
    assert forall|j: int| 0 <= j < elements.len() implies (#[trigger] p(j) <==> owners.contains(
        elements[j].window,
    ) && on_screen(elements[j])) by {
        let e = elements[j];
        let q = shows_part(outputs, e.content_rect());
        lemma_first_below(outputs.len(), q);
        if e.location is Some {
            assert(forall|k: int| #[trigger] shows(e, k) == q(k));
            match first_below(outputs.len(), q) {
                Some(k) => {
                    assert(shows(e, k));
                },
                None => {
                    assert forall|k: int| 0 <= k < outputs.len() implies !#[trigger] shows(e, k) by {
                        assert(!q(k));
                    }
                },
            }
        }
    }
    if 0 <= i < elements.len() && owners.contains(elements[i].window) && (forall|j: int|
        0 <= j < i ==> !(owners.contains((#[trigger] elements[j]).window) && on_screen(
            elements[j],
        ))) && 0 <= o < outputs.len() && shows(elements[i], o) && (forall|k: int|
        0 <= k < o ==> !#[trigger] shows(elements[i], k)) {
        let e = elements[i];
        assert(on_screen(e));
        assert(p(i));
        assert forall|j: int| 0 <= j < i implies !(#[trigger] p(j)) by {
            assert(!(owners.contains(elements[j].window) && on_screen(elements[j])));
        }
        lemma_is_first_below(elements.len(), p, i);
        let q = shows_part(outputs, e.content_rect());
        assert(q(o));
        assert forall|k: int| 0 <= k < o implies !(#[trigger] q(k)) by {
            assert(!shows(e, k));
        }
        lemma_is_first_below(outputs.len(), q, o);
    }
    if forall|j: int|
        0 <= j < elements.len() ==> !(owners.contains((#[trigger] elements[j]).window)
            && on_screen(elements[j])) {
        assert forall|j: int| 0 <= j < elements.len() implies !(#[trigger] p(j)) by {
            assert(!(owners.contains(elements[j].window) && on_screen(elements[j])));
        }
        lemma_none_below(elements.len(), p);
    }
}

/// The windows on an output are those of which it shows a part, in the order of the list.
pub proof fn law_windows_on_output(elements: Seq<Element>, e: Element, output: Rectangle)
    ensures
        ({
            let seen = e.location is Some && output.spec_overlaps(
                Rectangle { loc: e.location.unwrap().0, size: e.geometry.size },
            );
            &&& seen ==> windows_shown(elements.push(e), output) == windows_shown(
                elements,
                output,
            ).push(e.window)
            &&& !seen ==> windows_shown(elements.push(e), output) == windows_shown(elements, output)
        }),
        windows_shown(Seq::empty(), output).len() == 0,
{
    assert(elements.push(e).drop_last() =~= elements);
}

} // verus!
