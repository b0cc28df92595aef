//! What is drawn on an output, front to back.

use vstd::prelude::*;

use crate::shell::hit::Element;
use crate::shell::model::ShellView;
use crate::shell::output::{Output, OutputView};
use crate::shell::tabs::{
    law_tabs_even, law_tabs_fill_bar, start_of_tab, tab_end, tab_start, tab_visible_width,
    visible_width_of_tab, SEPARATOR_WIDTH,
};
use crate::shell::tiling::{WindowId, BORDER_WIDTH};
use crate::shell::virtual_output::{region_views, shown_on, VirtualOutputView};
use crate::shell::workspace::{LayoutMode, Workspace, WorkspaceView, TAB_HEIGHT};
use crate::shell::{workspace_views, Shell};
use crate::utils::coordinates::{GlobalPoint, OutputRelativePoint, VirtualOutputRelativePoint};
use crate::utils::geometry::{clamp_i32, fits_i32, saturating_sum, Point, Rectangle, Size};
use crate::utils::search::{
    first_below, lemma_first_below, lemma_is_first_below, lemma_none_below,
};

verus! {

/// The layers of an output, back to front.
#[derive(Debug, Clone, Copy, PartialEq, Eq, Structural)]
pub enum Layer {
    Background,
    Bottom,
    Top,
    Overlay,
}

/// A surface in a layer, and its place on the output where it has one.
#[derive(Debug, Clone, Copy, PartialEq, Eq, Structural)]
pub struct LayerSurface {
    pub surface: u64,
    pub layer: Layer,
    pub geometry: Option<Rectangle>,
}

/// What a solid rectangle is for, which decides its color.
#[derive(Debug, Clone, Copy, PartialEq, Eq, Structural)]
pub enum SolidColor {
    /// Border of the focused window, and the active tab.
    Focused,
    /// Borders of the other windows, and the other tabs.
    Unfocused,
    /// Line between two tabs.
    Separator,
}

/// A thing to draw, at a point relative to the output.
#[derive(Debug, Clone, Copy, PartialEq, Eq, Structural)]
pub enum RenderItem {
    Layer { surface: u64, location: Point },
    Window { window: WindowId, location: Point },
    Solid { color: SolidColor, location: Point, size: Size },
}

/// Surfaces of the layers asked for, in the order in which they are listed.
pub open spec fn layer_items(layers: Seq<LayerSurface>, first: Layer, second: Layer) -> Seq<RenderItem>
    decreases layers.len(),
{
    if layers.len() == 0 {
        Seq::empty()
    } else {
        let before = layer_items(layers.drop_last(), first, second);
        let l = layers.last();
        match l.geometry {
            Some(geometry) => if l.layer == first || l.layer == second {
                before.push(RenderItem::Layer { surface: l.surface, location: geometry.loc })
            } else {
                before
            },
            None => before,
        }
    }
}

/// Whether the entry at a place is about the window.
pub open spec fn is_about(elements: Seq<Element>, window: WindowId) -> spec_fn(int) -> bool {
    |i: int| elements[i].window == window
}

/// Where a window's content is: its place and size, if it is on the screen.
pub open spec fn content_of(elements: Seq<Element>, window: WindowId) -> Option<Rectangle> {
    match first_below(elements.len(), is_about(elements, window)) {
        Some(i) => match elements[i].location {
            Some(p) => Some(Rectangle { loc: p.0, size: elements[i].geometry.size }),
            None => None,
        },
        None => None,
    }
}

/// Where a window's content is.
fn find_content(elements: &Vec<Element>, window: WindowId) -> (r: Option<Rectangle>)
    ensures
        r == content_of(elements@, window),
{
    let ghost p = is_about(elements@, window);
    let mut i: usize = 0;
    while i < elements.len()
        invariant
            i <= elements@.len(),
            p == is_about(elements@, window),
            forall|k: int| 0 <= k < i ==> !(#[trigger] p(k)),
        decreases elements@.len() - i,
    {
        if elements[i].window == window {
            proof {
                assert(p(i as int));
                lemma_is_first_below(elements@.len(), p, i as int);
            }
            return match elements[i].location {
                Some(location) => Some(
                    Rectangle { loc: location.as_point(), size: elements[i].geometry.size },
                ),
                None => None,
            };
        }
        assert(!p(i as int));
        i = i + 1;
    }
    proof {
        lemma_none_below(elements@.len(), p);
    }
    None
}

/// What is around a region: the virtual output's corner, the region itself, the output's
/// place and the windows on the screen.
pub struct Scene {
    pub origin: Point,
    pub region: Rectangle,
    pub output: Point,
    pub elements: Seq<Element>,
    pub focused: Option<WindowId>,
}

impl Scene {
    /// A point relative to the virtual output, relative to the physical one.
    pub open spec fn on_output(self, p: Point) -> Point {
        p.spec_plus(self.origin).spec_minus(self.output)
    }

    /// Where a window's content is, if the region shows a part of it.
    pub open spec fn seen(self, window: WindowId) -> Option<Rectangle> {
        match content_of(self.elements, window) {
            Some(rect) => if self.region.spec_overlaps(rect) {
                Some(rect)
            } else {
                None
            },
            None => None,
        }
    }

    /// Draws a window if the region shows a part of it.
    pub open spec fn window_item(self, window: WindowId) -> Seq<RenderItem> {
        match self.seen(window) {
            Some(rect) => seq![
                RenderItem::Window { window, location: rect.loc.spec_minus(self.output) },
            ],
            None => Seq::empty(),
        }
    }

    /// Draws the windows of a list of which the region shows a part.
    pub open spec fn window_items(self, windows: Seq<WindowId>) -> Seq<RenderItem>
        decreases windows.len(),
    {
        if windows.len() == 0 {
            Seq::empty()
        } else {
            self.window_items(windows.drop_last()) + self.window_item(windows.last())
        }
    }

    /// Draws the windows of a workspace: the fullscreen one alone, or all of them.
    pub open spec fn workspace_windows(self, w: WorkspaceView) -> Seq<RenderItem> {
        match w.fullscreen {
            Some(window) => self.window_item(window),
            None => self.window_items(w.windows),
        }
    }

    /// Draws one tab, and the line behind it unless it is the last.
    pub open spec fn tab_items(self, w: WorkspaceView, i: int) -> Seq<RenderItem> {
        let area = w.available_area.0;
        let n = w.tiled().len() as int;
        let tab = RenderItem::Solid {
            color: if i == w.active_tab {
                SolidColor::Focused
            } else {
                SolidColor::Unfocused
            },
            location: self.on_output(
                Point {
                    x: clamp_i32(area.loc.x + tab_start(area.size.w as int, n, i)) as i32,
                    y: area.loc.y,
                },
            ),
            size: Size {
                w: clamp_i32(tab_visible_width(area.size.w as int, n, i)) as i32,
                h: TAB_HEIGHT,
            },
        };
        if i < n - 1 {
            seq![
                tab,
                RenderItem::Solid {
                    color: SolidColor::Separator,
                    location: self.on_output(
                        Point {
                            x: clamp_i32(area.loc.x + tab_end(area.size.w as int, n, i)) as i32,
                            y: area.loc.y,
                        },
                    ),
                    size: Size { w: SEPARATOR_WIDTH, h: TAB_HEIGHT },
                },
            ]
        } else {
            seq![tab]
        }
    }

    /// Draws the first `k` tabs.
    pub open spec fn tabs(self, w: WorkspaceView, k: int) -> Seq<RenderItem>
        decreases k,
    {
        if k <= 0 {
            Seq::empty()
        } else {
            self.tabs(w, k - 1) + self.tab_items(w, k - 1)
        }
    }

    /// Draws the tab bar, in tabbed mode.
    pub open spec fn tab_bar(self, w: WorkspaceView) -> Seq<RenderItem> {
        if w.layout_mode == LayoutMode::Tabbed {
            self.tabs(w, w.tiled().len() as int)
        } else {
            Seq::empty()
        }
    }

    /// The rectangle that gets the focused border: that of the focused window, if it is
    /// tiled and the region shows a part of it.
    pub open spec fn focused_rect(self, w: WorkspaceView) -> Option<Rectangle> {
        match self.focused {
            Some(window) => if w.fullscreen is None && w.windows.contains(window) && self.seen(
                window,
            ) is Some && !w.floating.contains(window) && w.rectangles.contains_key(window)
                && w.rectangles[window].0.size.w > 0 && w.rectangles[window].0.size.h > 0 {
                Some(w.rectangles[window].0)
            } else {
                None
            },
            None => None,
        }
    }

    /// Draws the border of the focused window.
    pub open spec fn border(self, w: WorkspaceView) -> Seq<RenderItem> {
        match self.focused_rect(w) {
            Some(rect) => seq![
                RenderItem::Solid {
                    color: SolidColor::Focused,
                    location: self.on_output(rect.loc).spec_plus(
                        Point { x: (-BORDER_WIDTH) as i32, y: (-BORDER_WIDTH) as i32 },
                    ),
                    size: Size {
                        w: clamp_i32(rect.size.w + 2 * BORDER_WIDTH) as i32,
                        h: clamp_i32(rect.size.h + 2 * BORDER_WIDTH) as i32,
                    },
                },
            ],
            None => Seq::empty(),
        }
    }

    /// Draws the background that shows between tiled windows as their borders.
    pub open spec fn background(self, w: WorkspaceView) -> Seq<RenderItem> {
        let area = w.available_area.0;
        if w.windows.len() > 0 && area.size.w > 0 && area.size.h > 0 {
            seq![
                RenderItem::Solid {
                    color: SolidColor::Unfocused,
                    location: self.on_output(area.loc),
                    size: area.size,
                },
            ]
        } else {
            Seq::empty()
        }
    }

    /// Draws a workspace in a region.
    pub open spec fn items(self, w: WorkspaceView) -> Seq<RenderItem> {
        self.workspace_windows(w) + self.tab_bar(w) + self.border(w) + self.background(w)
    }
}

/// Draws a workspace in the first `k` regions of a virtual output that the output shows.
pub open spec fn region_items(
    s: ShellView,
    w: WorkspaceView,
    v: VirtualOutputView,
    output: OutputView,
    elements: Seq<Element>,
    k: int,
) -> Seq<RenderItem>
    decreases k,
{
    if k <= 0 {
        Seq::empty()
    } else {
        let before = region_items(s, w, v, output, elements, k - 1);
        let region = v.regions[k - 1];
        if region.output == output.id {
            before + Scene {
                origin: v.geometry.0.loc,
                region: region.rect.0,
                output: output.position.0,
                elements,
                focused: s.focused,
            }.items(w)
        } else {
            before
        }
    }
}

/// Draws the workspaces of the first `k` virtual outputs that the output shows.
pub open spec fn output_items(
    s: ShellView,
    shown: Seq<VirtualOutputView>,
    output: OutputView,
    elements: Seq<Element>,
    k: int,
) -> Seq<RenderItem>
    decreases k,
{
    if k <= 0 {
        Seq::empty()
    } else {
        let before = output_items(s, shown, output, elements, k - 1);
        let v = shown[k - 1];
        match v.active {
            Some(ws) => before + region_items(
                s,
                s.workspaces[ws.0 - 1],
                v,
                output,
                elements,
                v.regions.len() as int,
            ),
            None => before,
        }
    }
}

/// All that is drawn on an output, front to back: the overlay, the top layer, the workspaces,
/// and the layers below.
pub open spec fn frame_items(
    s: ShellView,
    output: OutputView,
    elements: Seq<Element>,
    layers: Seq<LayerSurface>,
) -> Seq<RenderItem> {
    let shown = shown_on(s.manager.outputs, output.name);
    layer_items(layers, Layer::Overlay, Layer::Overlay) + layer_items(
        layers,
        Layer::Top,
        Layer::Top,
    ) + output_items(s, shown, output, elements, shown.len() as int) + layer_items(
        layers,
        Layer::Background,
        Layer::Bottom,
    )
}

/// Appends the surfaces of the layers asked for.
fn push_layers(items: &mut Vec<RenderItem>, layers: &Vec<LayerSurface>, first: Layer, second: Layer)
    ensures
        final(items)@ == old(items)@ + layer_items(layers@, first, second),
{
    let mut i: usize = 0;
    assert(layers@.take(0) =~= Seq::<LayerSurface>::empty());
    assert(items@ =~= old(items)@ + layer_items(layers@.take(0), first, second));
    while i < layers.len()
        invariant
            i <= layers@.len(),
            items@ == old(items)@ + layer_items(layers@.take(i as int), first, second),
        decreases layers@.len() - i,
    {
        let l = layers[i];
        let ghost before = items@;
        proof {
            assert(layers@.take(i + 1).drop_last() =~= layers@.take(i as int));
            assert(layers@.take(i + 1).last() == l);
        }
        match l.geometry {
            Some(geometry) => {
                if l.layer == first || l.layer == second {
                    items.push(RenderItem::Layer { surface: l.surface, location: geometry.loc });
                }
            },
            None => {},
        }
        assert(items@ =~= old(items)@ + layer_items(layers@.take(i + 1), first, second));
        i = i + 1;
    }
    assert(layers@.take(i as int) =~= layers@);
}

/// The executable counterpart of a scene.
struct SceneRef<'a> {
    origin: GlobalPoint,
    region: Rectangle,
    output: GlobalPoint,
    elements: &'a Vec<Element>,
    focused: Option<WindowId>,
}

impl<'a> SceneRef<'a> {
    spec fn scene(self) -> Scene {
        Scene {
            origin: self.origin.0,
            region: self.region,
            output: self.output.0,
            elements: self.elements@,
            focused: self.focused,
        }
    }

    fn on_output(&self, p: Point) -> (r: Point)
        ensures
            r == self.scene().on_output(p),
    {
        VirtualOutputRelativePoint(p).to_output_relative(self.origin, self.output).as_point()
    }

    fn seen(&self, window: WindowId) -> (r: Option<Rectangle>)
        ensures
            r == self.scene().seen(window),
    {
        match find_content(self.elements, window) {
            Some(rect) => if self.region.overlaps(&rect) {
                Some(rect)
            } else {
                None
            },
            None => None,
        }
    }

    fn push_window(&self, items: &mut Vec<RenderItem>, window: WindowId)
        ensures
            final(items)@ == old(items)@ + self.scene().window_item(window),
    {
        match self.seen(window) {
            Some(rect) => {
                let location = GlobalPoint(rect.loc).to_output_relative(self.output).as_point();
                items.push(RenderItem::Window { window, location });
            },
            None => {},
        }
        assert(items@ =~= old(items)@ + self.scene().window_item(window));
    }

    fn push_windows(&self, items: &mut Vec<RenderItem>, windows: &Vec<WindowId>)
        ensures
            final(items)@ == old(items)@ + self.scene().window_items(windows@),
    {
        let ghost scene = self.scene();
        let mut i: usize = 0;
        assert(windows@.take(0) =~= Seq::<WindowId>::empty());
        assert(items@ =~= old(items)@ + scene.window_items(windows@.take(0)));
        while i < windows.len()
            invariant
                i <= windows@.len(),
                scene == self.scene(),
                items@ == old(items)@ + scene.window_items(windows@.take(i as int)),
            decreases windows@.len() - i,
        {
            proof {
                assert(windows@.take(i + 1).drop_last() =~= windows@.take(i as int));
                assert(windows@.take(i + 1).last() == windows@[i as int]);
            }
            self.push_window(items, windows[i]);
            assert(items@ =~= old(items)@ + scene.window_items(windows@.take(i + 1)));
            i = i + 1;
        }
        assert(windows@.take(i as int) =~= windows@);
    }

    fn push_tabs(&self, items: &mut Vec<RenderItem>, w: &Workspace)
        ensures
            final(items)@ == old(items)@ + self.scene().tab_bar(w@),
    {
        let ghost scene = self.scene();
        match w.layout_mode() {
            LayoutMode::Tabbed => {},
            LayoutMode::Tiling => {
                assert(items@ =~= old(items)@ + Seq::<RenderItem>::empty());
                return;
            },
        }
        let area = w.available_area().as_rectangle();
        let n: usize = w.tiled_windows().len();
        let active: usize = w.active_tab_index();
        let mut i: usize = 0;
        assert(items@ =~= old(items)@ + scene.tabs(w@, 0));
        while i < n
            invariant
                i <= n,
                n == w@.tiled().len(),
                active == w@.active_tab,
                area == w@.available_area.0,
                scene == self.scene(),
                items@ == old(items)@ + scene.tabs(w@, i as int),
            decreases n - i,
        {
            let start: i128 = start_of_tab(area.size.w, n, i);
            let visible: i128 = visible_width_of_tab(area.size.w, n, i);
            let x: i32 = narrowed(area.loc.x as i128 + start);
            items.push(
                RenderItem::Solid {
                    color: if i == active {
                        SolidColor::Focused
                    } else {
                        SolidColor::Unfocused
                    },
                    location: self.on_output(Point { x, y: area.loc.y }),
                    size: Size { w: narrowed(visible), h: TAB_HEIGHT },
                },
            );
            if i < n - 1 {
                let end: i32 = narrowed(area.loc.x as i128 + start + visible);
                items.push(
                    RenderItem::Solid {
                        color: SolidColor::Separator,
                        location: self.on_output(Point { x: end, y: area.loc.y }),
                        size: Size { w: SEPARATOR_WIDTH, h: TAB_HEIGHT },
                    },
                );
            }
            assert(items@ =~= old(items)@ + (scene.tabs(w@, i as int) + scene.tab_items(
                w@,
                i as int,
            )));
            i = i + 1;
        }
    }

    fn focused_rect(&self, w: &Workspace) -> (r: Option<Rectangle>)
        ensures
            r == self.scene().focused_rect(w@),
    {
        match self.focused {
            Some(window) => {
                if w.fullscreen().is_none() && w.contains(window) && self.seen(window).is_some()
                    && !w.is_floating(window) {
                    match w.rectangle_of(window) {
                        Some(rect) => {
                            let size = rect.size();
                            if size.w > 0 && size.h > 0 {
                                Some(rect.as_rectangle())
                            } else {
                                None
                            }
                        },
                        None => None,
                    }
                } else {
                    None
                }
            },
            None => None,
        }
    }

    fn push_workspace(&self, items: &mut Vec<RenderItem>, w: &Workspace)
        ensures
            final(items)@ == old(items)@ + self.scene().items(w@),
    {
        let ghost scene = self.scene();
        match w.fullscreen() {
            Some(window) => {
                self.push_window(items, window);
            },
            None => {
                self.push_windows(items, w.windows());
            },
        }
        self.push_tabs(items, w);
        match self.focused_rect(w) {
            Some(rect) => {
                let location = OutputRelativePoint(self.on_output(rect.loc)).offset_by(
                    -BORDER_WIDTH,
                    -BORDER_WIDTH,
                );
                items.push(
                    RenderItem::Solid {
                        color: SolidColor::Focused,
                        location: location.as_point(),
                        size: Size {
                            w: saturating_sum(rect.size.w, 2 * BORDER_WIDTH),
                            h: saturating_sum(rect.size.h, 2 * BORDER_WIDTH),
                        },
                    },
                );
            },
            None => {},
        }
        let area = w.available_area().as_rectangle();
        if w.windows().len() > 0 && area.size.w > 0 && area.size.h > 0 {
            items.push(
                RenderItem::Solid {
                    color: SolidColor::Unfocused,
                    location: self.on_output(area.loc),
                    size: area.size,
                },
            );
        }
        assert(items@ =~= old(items)@ + (scene.workspace_windows(w@) + scene.tab_bar(w@)
            + scene.border(w@) + scene.background(w@)));
    }
}

/// The number nearest to `v` that fits in an `i32`.
fn narrowed(v: i128) -> (r: i32)
    ensures
        r == clamp_i32(v as int),
{
    if v < i32::MIN as i128 {
        i32::MIN
    } else if v > i32::MAX as i128 {
        i32::MAX
    } else {
        v as i32
    }
}

impl Shell {
    /// Lists what is drawn on an output, front to back. `elements` holds the windows on the
    /// screen, `layers` the layer surfaces of the output.
    pub fn render_elements(
        &self,
        output: &Output,
        elements: &Vec<Element>,
        layers: &Vec<LayerSurface>,
    ) -> (r: Vec<RenderItem>)
        requires
            self.wf(),
        ensures
            r@ == frame_items(self@, output@, elements@, layers@),
    {
        let mut items: Vec<RenderItem> = Vec::new();
        push_layers(&mut items, layers, Layer::Overlay, Layer::Overlay);
        push_layers(&mut items, layers, Layer::Top, Layer::Top);
        let ghost front = items@;
        let workspaces = self.workspaces();
        let shown = self.virtual_output_manager().virtual_outputs_for_physical(
            output.name.as_str(),
        );
        let ghost views = shown_on(self@.manager.outputs, output@.name);
        proof {
            self.lemma_shown_valid(output@.name);
            assert(workspaces.len() == self@.workspaces.len());
        }
        let mut i: usize = 0;
        assert(items@ =~= front + output_items(self@, views, output@, elements@, 0));
        while i < shown.len()
            invariant
                i <= shown@.len(),
                shown@.len() == views.len(),
                workspaces.len() == self@.workspaces.len(),
                workspace_views(workspaces@) == self@.workspaces,
                forall|k: int| 0 <= k < shown@.len() ==> (#[trigger] shown@[k])@ == views[k],
                forall|k: int|
                    0 <= k < views.len() ==> ((#[trigger] views[k]).active matches Some(ws) ==> 1
                        <= ws.0 <= self@.workspaces.len()),
                items@ == front + output_items(self@, views, output@, elements@, i as int),
            decreases shown@.len() - i,
        {
            let v = shown[i];
            assert(v@ == views[i as int]);
            match v.active_workspace() {
                Some(ws) => {
                    let w = &workspaces[(ws.0 - 1) as usize];
                    assert(w@ == self@.workspaces[ws.0 - 1]);
                    let ghost before = items@;
                    let regions = v.regions();
                    let origin = v.logical_geometry().location();
                    let mut k: usize = 0;
                    assert(items@ =~= before + region_items(
                        self@,
                        w@,
                        v@,
                        output@,
                        elements@,
                        0,
                    ));
                    while k < regions.len()
                        invariant
                            k <= regions@.len(),
                            region_views(regions@) == v@.regions,
                            origin.0 == v@.geometry.0.loc,
                            items@ == before + region_items(
                                self@,
                                w@,
                                v@,
                                output@,
                                elements@,
                                k as int,
                            ),
                        decreases regions@.len() - k,
                    {
                        assert(v@.regions[k as int] == regions@[k as int]@);
                        if regions[k].physical_output.id == output.id {
                            let view = SceneRef {
                                origin,
                                region: regions[k].logical_rect.as_rectangle(),
                                output: output.position,
                                elements,
                                focused: self.focused_window(),
                            };
                            view.push_workspace(&mut items, w);
                        }
                        assert(items@ =~= before + region_items(
                            self@,
                            w@,
                            v@,
                            output@,
                            elements@,
                            k + 1,
                        ));
                        k = k + 1;
                    }
                    assert(items@ =~= front + output_items(
                        self@,
                        views,
                        output@,
                        elements@,
                        i + 1,
                    ));
                },
                None => {},
            }
            i = i + 1;
        }
        push_layers(&mut items, layers, Layer::Background, Layer::Bottom);
        assert(items@ =~= frame_items(self@, output@, elements@, layers@));
        items
    }
}

/// Whether the thing to draw is the window.
pub open spec fn is_window(item: RenderItem, window: WindowId) -> bool {
    item matches RenderItem::Window { window: drawn, .. } && drawn == window
}

/// Whether the window is among the things to draw.
pub open spec fn draws(items: Seq<RenderItem>, window: WindowId) -> bool {
    exists|i: int| 0 <= i < items.len() && #[trigger] is_window(items[i], window)
}

/// What two lists draw together, one of them draws.
proof fn lemma_draws_either(a: Seq<RenderItem>, b: Seq<RenderItem>, window: WindowId)
    ensures
        draws(a + b, window) <==> draws(a, window) || draws(b, window),
{
    let all = a + b;
    if draws(all, window) {
        let i = choose|i: int| 0 <= i < all.len() && #[trigger] is_window(all[i], window);
        if i < a.len() {
            assert(is_window(a[i], window));
        } else {
            assert(is_window(b[i - a.len()], window));
        }
    }
    if draws(a, window) {
        let i = choose|i: int| 0 <= i < a.len() && #[trigger] is_window(a[i], window);
        assert(is_window(all[i], window));
    }
    if draws(b, window) {
        let i = choose|i: int| 0 <= i < b.len() && #[trigger] is_window(b[i], window);
        assert(is_window(all[i + a.len()], window));
    }
}

/// A window is drawn for itself, if the region shows a part of it.
proof fn lemma_window_item(scene: Scene, drawn: WindowId, window: WindowId)
    ensures
        draws(scene.window_item(drawn), window) <==> drawn == window && scene.seen(
            window,
        ) is Some,
{
    let items = scene.window_item(drawn);
    if drawn == window && scene.seen(window) is Some {
        assert(is_window(items[0], window));
    }
}

/// Of the windows of a list, those are drawn of which the region shows a part.
proof fn lemma_window_items(scene: Scene, windows: Seq<WindowId>, window: WindowId)
    ensures
        draws(scene.window_items(windows), window) <==> windows.contains(window) && scene.seen(
            window,
        ) is Some,
    decreases windows.len(),
{
    if windows.len() > 0 {
        let rest = windows.drop_last();
        lemma_window_items(scene, rest, window);
        lemma_window_item(scene, windows.last(), window);
        lemma_draws_either(
            scene.window_items(rest),
            scene.window_item(windows.last()),
            window,
        );
        if windows.contains(window) {
            let i = choose|i: int| 0 <= i < windows.len() && windows[i] == window;
            if i < rest.len() {
                assert(rest[i] == window);
            }
        }
        if rest.contains(window) {
            let i = choose|i: int| 0 <= i < rest.len() && rest[i] == window;
            assert(windows[i] == window);
        }
        assert(windows[windows.len() - 1] == windows.last());
    }
}

/// Tabs are no windows.
proof fn lemma_tabs_draw_nothing(scene: Scene, w: WorkspaceView, k: int, window: WindowId)
    ensures
        !draws(scene.tabs(w, k), window),
    decreases k,
{
    if k > 0 {
        lemma_tabs_draw_nothing(scene, w, k - 1, window);
        lemma_draws_either(scene.tabs(w, k - 1), scene.tab_items(w, k - 1), window);
    }
}

/// Of a workspace, a region draws the windows of which it shows a part; if one of them is
/// fullscreen, that one alone.
pub proof fn law_drawn_iff_seen(scene: Scene, w: WorkspaceView, window: WindowId)
    ensures
        draws(scene.items(w), window) <==> (match w.fullscreen {
            Some(fullscreen) => window == fullscreen,
            None => w.windows.contains(window),
        }) && scene.seen(window) is Some,
{
    let windows = scene.workspace_windows(w);
    let bar = scene.tab_bar(w);
    match w.fullscreen {
        Some(fullscreen) => lemma_window_item(scene, fullscreen, window),
        None => lemma_window_items(scene, w.windows, window),
    }
    lemma_tabs_draw_nothing(scene, w, w.tiled().len() as int, window);
    lemma_draws_either(windows, bar, window);
    lemma_draws_either(windows + bar, scene.border(w), window);
    lemma_draws_either(windows + bar + scene.border(w), scene.background(w), window);
}

/// Whether the thing to draw is a surface of one of the layers asked for.
pub open spec fn of_layer(layers: Seq<LayerSurface>, item: RenderItem, first: Layer, second: Layer) -> bool {
    exists|i: int|
        0 <= i < layers.len() && ((#[trigger] layers[i]).layer == first || layers[i].layer
            == second) && layers[i].geometry is Some && item == (RenderItem::Layer {
            surface: layers[i].surface,
            location: layers[i].geometry.unwrap().loc,
        })
}

/// What is drawn for some layers are surfaces of those layers.
proof fn lemma_layer_items(layers: Seq<LayerSurface>, first: Layer, second: Layer)
    ensures
        forall|k: int|
            0 <= k < layer_items(layers, first, second).len() ==> of_layer(
                layers,
                #[trigger] layer_items(layers, first, second)[k],
                first,
                second,
            ),
    decreases layers.len(),
{
    if layers.len() > 0 {
        let rest = layers.drop_last();
        let items = layer_items(layers, first, second);
        let before = layer_items(rest, first, second);
        lemma_layer_items(rest, first, second);
        assert forall|k: int| 0 <= k < items.len() implies of_layer(
            layers,
            #[trigger] items[k],
            first,
            second,
        ) by {
            if k < before.len() {
                assert(items[k] == before[k]);
                assert(of_layer(rest, before[k], first, second));
                let i = choose|i: int|
                    0 <= i < rest.len() && ((#[trigger] rest[i]).layer == first || rest[i].layer
                        == second) && rest[i].geometry is Some && before[k] == (RenderItem::Layer {
                        surface: rest[i].surface,
                        location: rest[i].geometry.unwrap().loc,
                    });
                assert(layers[i] == rest[i]);
            } else {
                assert(layers[layers.len() - 1] == layers.last());
            }
        }
    }
}

/// What is drawn on an output falls into four parts, front to back: surfaces of the overlay,
/// surfaces of the top layer, what the virtual outputs show, and surfaces of the background and
/// of the bottom layer.
pub proof fn law_layers_enclose(
    s: ShellView,
    output: OutputView,
    elements: Seq<Element>,
    layers: Seq<LayerSurface>,
)
    ensures
        ({
            let items = frame_items(s, output, elements, layers);
            let shown = shown_on(s.manager.outputs, output.name);
            let a = layer_items(layers, Layer::Overlay, Layer::Overlay).len() as int;
            let b = a + layer_items(layers, Layer::Top, Layer::Top).len();
            let c = items.len() - layer_items(layers, Layer::Background, Layer::Bottom).len();
            &&& 0 <= a <= b <= c <= items.len()
            &&& items.subrange(b, c) == output_items(s, shown, output, elements, shown.len() as int)
            &&& forall|k: int|
                0 <= k < a ==> of_layer(
                    layers,
                    #[trigger] items[k],
                    Layer::Overlay,
                    Layer::Overlay,
                )
            &&& forall|k: int|
                a <= k < b ==> of_layer(layers, #[trigger] items[k], Layer::Top, Layer::Top)
            &&& forall|k: int|
                c <= k < items.len() ==> of_layer(
                    layers,
                    #[trigger] items[k],
                    Layer::Background,
                    Layer::Bottom,
                )
        }),
{
    let items = frame_items(s, output, elements, layers);
    let shown = shown_on(s.manager.outputs, output.name);
    let front = layer_items(layers, Layer::Overlay, Layer::Overlay);
    let top = layer_items(layers, Layer::Top, Layer::Top);
    let middle = output_items(s, shown, output, elements, shown.len() as int);
    let back = layer_items(layers, Layer::Background, Layer::Bottom);
    lemma_layer_items(layers, Layer::Overlay, Layer::Overlay);
    lemma_layer_items(layers, Layer::Top, Layer::Top);
    lemma_layer_items(layers, Layer::Background, Layer::Bottom);
    let a = front.len() as int;
    let b = a + top.len();
    let c = items.len() - back.len();
    assert(items.len() == a + top.len() + middle.len() + back.len());
    assert(items.subrange(b, c) =~= middle);
    assert forall|k: int| 0 <= k < a implies of_layer(
        layers,
        #[trigger] items[k],
        Layer::Overlay,
        Layer::Overlay,
    ) by {
        assert(items[k] == front[k]);
    }
    assert forall|k: int| a <= k < b implies of_layer(
        layers,
        #[trigger] items[k],
        Layer::Top,
        Layer::Top,
    ) by {
        assert(items[k] == top[k - a]);
    }
    assert forall|k: int| c <= k < items.len() implies of_layer(
        layers,
        #[trigger] items[k],
        Layer::Background,
        Layer::Bottom,
    ) by {
        assert(items[k] == back[k - c]);
    }
}

/// Whether the entry at a place is the first that is about the window, and says where it is.
pub open spec fn located(elements: Seq<Element>, window: WindowId, j: int) -> bool {
    &&& 0 <= j < elements.len()
    &&& elements[j].window == window
    &&& elements[j].location is Some
    &&& forall|k: int| 0 <= k < j ==> (#[trigger] elements[k]).window != window
}

/// Whether a window's place is that of the entry, counted from the output's place.
pub open spec fn drawn_from(
    elements: Seq<Element>,
    window: WindowId,
    location: Point,
    position: Point,
    j: int,
) -> bool {
    let at = elements[j].location.unwrap().0;
    &&& located(elements, window, j)
    &&& fits_i32(at.x - position.x) ==> location.x == at.x - position.x
    &&& fits_i32(at.y - position.y) ==> location.y == at.y - position.y
}

/// Whether a thing to draw, if it is a window, is drawn at the global place of that window,
/// counted from the output's place.
pub open spec fn window_in_place(item: RenderItem, elements: Seq<Element>, position: Point) -> bool {
    item is Window ==> exists|j: int| #[trigger]
        drawn_from(elements, item->window, item->Window_location, position, j)
}

/// Whether all windows among the things to draw are drawn in their places.
pub open spec fn windows_in_place(items: Seq<RenderItem>, elements: Seq<Element>, position: Point) -> bool {
    forall|i: int|
        0 <= i < items.len() ==> window_in_place(#[trigger] items[i], elements, position)
}

/// A window's content is where the first entry about the window says.
proof fn lemma_content_of(elements: Seq<Element>, window: WindowId)
    ensures
        content_of(elements, window) matches Some(rect) ==> exists|j: int| #[trigger]
            located(elements, window, j) && rect.loc == elements[j].location.unwrap().0 && rect.size
                == elements[j].geometry.size,
        forall|j: int| #[trigger]
            located(elements, window, j) ==> content_of(elements, window) == Some(
                Rectangle { loc: elements[j].location.unwrap().0, size: elements[j].geometry.size },
            ),
{
    let p = is_about(elements, window);
    lemma_first_below(elements.len(), p);
    match first_below(elements.len(), p) {
        Some(i) => {
            assert forall|k: int| 0 <= k < i implies (#[trigger] elements[k]).window != window by {
                assert(!p(k));
            }
            if elements[i].location is Some {
                assert(located(elements, window, i));
            }
        },
        None => {},
    }
    assert forall|j: int| #[trigger] located(elements, window, j) implies content_of(
        elements,
        window,
    ) == Some(
        Rectangle { loc: elements[j].location.unwrap().0, size: elements[j].geometry.size },
    ) by {
        assert(p(j));
        assert forall|k: int| 0 <= k < j implies !(#[trigger] p(k)) by {
            assert(elements[k].window != window);
        }
        lemma_is_first_below(elements.len(), p, j);
    }
}

proof fn lemma_window_items_in_place(scene: Scene, windows: Seq<WindowId>)
    ensures
        windows_in_place(scene.window_items(windows), scene.elements, scene.output),
    decreases windows.len(),
{
    if windows.len() > 0 {
        lemma_window_items_in_place(scene, windows.drop_last());
        lemma_window_item_in_place(scene, windows.last());
    }
}

proof fn lemma_drawn_from(
    elements: Seq<Element>,
    window: WindowId,
    location: Point,
    position: Point,
    j: int,
)
    requires
        drawn_from(elements, window, location, position, j),
    ensures
        window_in_place(RenderItem::Window { window, location }, elements, position),
{
    let item = RenderItem::Window { window, location };
    assert(item is Window);
    assert(item->window == window);
    assert(item->Window_location == location);
    assert(drawn_from(elements, item->window, item->Window_location, position, j));
    assert(exists|j: int| #[trigger]
        drawn_from(elements, item->window, item->Window_location, position, j));
}

proof fn lemma_window_item_in_place(scene: Scene, window: WindowId)
    ensures
        windows_in_place(scene.window_item(window), scene.elements, scene.output),
{
    lemma_content_of(scene.elements, window);
    match scene.seen(window) {
        Some(rect) => {
            assert(content_of(scene.elements, window) == Some(rect));
            let j = choose|j: int| #[trigger]
                located(scene.elements, window, j) && rect.loc
                    == scene.elements[j].location.unwrap().0 && rect.size
                    == scene.elements[j].geometry.size;
            let location = rect.loc.spec_minus(scene.output);
            lemma_drawn_from(scene.elements, window, location, scene.output, j);
            assert(scene.window_item(window)[0] == (RenderItem::Window { window, location }));
        },
        None => {},
    }
}

proof fn lemma_tabs_in_place(scene: Scene, w: WorkspaceView, k: int)
    ensures
        windows_in_place(scene.tabs(w, k), scene.elements, scene.output),
    decreases k,
{
    if k > 0 {
        lemma_tabs_in_place(scene, w, k - 1);
    }
}

proof fn lemma_items_in_place(scene: Scene, w: WorkspaceView)
    ensures
        windows_in_place(scene.items(w), scene.elements, scene.output),
{
    match w.fullscreen {
        Some(window) => lemma_window_item_in_place(scene, window),
        None => lemma_window_items_in_place(scene, w.windows),
    }
    lemma_tabs_in_place(scene, w, w.tiled().len() as int);
}

proof fn lemma_region_items_in_place(
    s: ShellView,
    w: WorkspaceView,
    v: VirtualOutputView,
    output: OutputView,
    elements: Seq<Element>,
    k: int,
)
    ensures
        windows_in_place(
            region_items(s, w, v, output, elements, k),
            elements,
            output.position.0,
        ),
    decreases k,
{
    if k > 0 {
        lemma_region_items_in_place(s, w, v, output, elements, k - 1);
        let region = v.regions[k - 1];
        if region.output == output.id {
            lemma_items_in_place(
                Scene {
                    origin: v.geometry.0.loc,
                    region: region.rect.0,
                    output: output.position.0,
                    elements,
                    focused: s.focused,
                },
                w,
            );
        }
    }
}

proof fn lemma_output_items_in_place(
    s: ShellView,
    shown: Seq<VirtualOutputView>,
    output: OutputView,
    elements: Seq<Element>,
    k: int,
)
    ensures
        windows_in_place(
            output_items(s, shown, output, elements, k),
            elements,
            output.position.0,
        ),
    decreases k,
{
    if k > 0 {
        lemma_output_items_in_place(s, shown, output, elements, k - 1);
        let v = shown[k - 1];
        match v.active {
            Some(ws) => lemma_region_items_in_place(
                s,
                s.workspaces[ws.0 - 1],
                v,
                output,
                elements,
                v.regions.len() as int,
            ),
            None => {},
        }
    }
}

/// Every window drawn on an output is drawn at its global place, counted from the output's
/// place. A window that lies inside the output's part of the global space is so drawn inside the
/// output.
pub proof fn law_windows_drawn_in_place(
    s: ShellView,
    output: OutputView,
    elements: Seq<Element>,
    layers: Seq<LayerSurface>,
    i: int,
    j: int,
    size: Size,
)
    requires
        0 <= i < frame_items(s, output, elements, layers).len(),
    ensures
        ({
            let item = frame_items(s, output, elements, layers)[i];
            let corner = output.position.0;
            &&& window_in_place(item, elements, corner)
            &&& item matches RenderItem::Window { window, location } ==> located(
                elements,
                window,
                j,
            ) ==> {
                let at = elements[j].location.unwrap().0;
                let content = elements[j].geometry.size;
                &&& corner.x <= at.x && at.x + content.w <= corner.x + size.w && content.w >= 0
                    ==> 0 <= location.x && location.x + content.w <= size.w
                &&& corner.y <= at.y && at.y + content.h <= corner.y + size.h && content.h >= 0
                    ==> 0 <= location.y && location.y + content.h <= size.h
            }
        }),
{
    let items = frame_items(s, output, elements, layers);
    let shown = shown_on(s.manager.outputs, output.name);
    law_layers_enclose(s, output, elements, layers);
    lemma_output_items_in_place(s, shown, output, elements, shown.len() as int);
    let a = layer_items(layers, Layer::Overlay, Layer::Overlay).len() as int;
    let b = a + layer_items(layers, Layer::Top, Layer::Top).len();
    let c = items.len() - layer_items(layers, Layer::Background, Layer::Bottom).len();
    if b <= i < c {
        assert(items[i] == items.subrange(b, c)[i - b]);
    }
    assert(window_in_place(items[i], elements, output.position.0));
    match items[i] {
        RenderItem::Window { window, location } => {
            let k = choose|k: int| #[trigger]
                drawn_from(elements, window, location, output.position.0, k);
            if located(elements, window, j) {
                assert(j == k) by {
                    if j < k {
                        assert(elements[j].window != window);
                    } else if k < j {
                        assert(elements[k].window != window);
                    }
                }
            }
        },
        _ => {},
    }
}

/// Whether a region of a virtual output that shows a workspace draws the window there: it is the
/// fullscreen one, or one of all if none is fullscreen, and the region shows a part of it.
pub open spec fn shown_in(
    w: WorkspaceView,
    region: Rectangle,
    elements: Seq<Element>,
    window: WindowId,
) -> bool {
    &&& w.fullscreen is Some ==> w.fullscreen == Some(window)
    &&& w.fullscreen is None ==> w.windows.contains(window)
    &&& exists|j: int| #[trigger]
        located(elements, window, j) && region.spec_overlaps(
            Rectangle { loc: elements[j].location.unwrap().0, size: elements[j].geometry.size },
        )
}

proof fn lemma_seen(scene: Scene, window: WindowId)
    ensures
        scene.seen(window) is Some <==> exists|j: int| #[trigger]
            located(scene.elements, window, j) && scene.region.spec_overlaps(
                Rectangle {
                    loc: scene.elements[j].location.unwrap().0,
                    size: scene.elements[j].geometry.size,
                },
            ),
{
    lemma_content_of(scene.elements, window);
}

proof fn lemma_region_items_draw(
    s: ShellView,
    w: WorkspaceView,
    v: VirtualOutputView,
    output: OutputView,
    elements: Seq<Element>,
    k: int,
    window: WindowId,
)
    requires
        k <= v.regions.len(),
    ensures
        draws(region_items(s, w, v, output, elements, k), window) <==> exists|r: int|
            0 <= r < k && (#[trigger] v.regions[r]).output == output.id && shown_in(
                w,
                v.regions[r].rect.0,
                elements,
                window,
            ),
    decreases k,
{
    if k > 0 {
        lemma_region_items_draw(s, w, v, output, elements, k - 1, window);
        let region = v.regions[k - 1];
        let before = region_items(s, w, v, output, elements, k - 1);
        if region.output == output.id {
            let scene = Scene {
                origin: v.geometry.0.loc,
                region: region.rect.0,
                output: output.position.0,
                elements,
                focused: s.focused,
            };
            law_drawn_iff_seen(scene, w, window);
            lemma_seen(scene, window);
            lemma_draws_either(before, scene.items(w), window);
        }
    }
}

/// Whether the virtual output at a place shows the window on an output.
pub open spec fn drawn_by(
    s: ShellView,
    shown: Seq<VirtualOutputView>,
    output: OutputView,
    elements: Seq<Element>,
    window: WindowId,
    k: int,
) -> bool {
    &&& shown[k].active is Some
    &&& exists|r: int|
        0 <= r < shown[k].regions.len() && (#[trigger] shown[k].regions[r]).output == output.id
            && shown_in(
            s.workspaces[shown[k].active.unwrap().0 - 1],
            shown[k].regions[r].rect.0,
            elements,
            window,
        )
}

proof fn lemma_output_items_draw(
    s: ShellView,
    shown: Seq<VirtualOutputView>,
    output: OutputView,
    elements: Seq<Element>,
    k: int,
    window: WindowId,
)
    requires
        k <= shown.len(),
    ensures
        draws(output_items(s, shown, output, elements, k), window) <==> exists|i: int|
            0 <= i < k && #[trigger] drawn_by(s, shown, output, elements, window, i),
    decreases k,
{
    if k > 0 {
        lemma_output_items_draw(s, shown, output, elements, k - 1, window);
        let v = shown[k - 1];
        let before = output_items(s, shown, output, elements, k - 1);
        match v.active {
            Some(ws) => {
                let w = s.workspaces[ws.0 - 1];
                let n = v.regions.len() as int;
                lemma_region_items_draw(s, w, v, output, elements, n, window);
                lemma_draws_either(before, region_items(s, w, v, output, elements, n), window);
                assert(drawn_by(s, shown, output, elements, window, k - 1) <==> draws(
                    region_items(s, w, v, output, elements, n),
                    window,
                ));
            },
            None => {
                assert(!drawn_by(s, shown, output, elements, window, k - 1));
            },
        }
    }
}

/// A window is drawn on an output exactly if one of the virtual outputs there shows a workspace
/// that shows the window, and a region of it on that output shows a part of the window.
pub proof fn law_drawn_on_output(
    s: ShellView,
    output: OutputView,
    elements: Seq<Element>,
    layers: Seq<LayerSurface>,
    window: WindowId,
)
    ensures
        draws(frame_items(s, output, elements, layers), window) <==> exists|k: int|
            0 <= k < shown_on(s.manager.outputs, output.name).len() && #[trigger] drawn_by(
                s,
                shown_on(s.manager.outputs, output.name),
                output,
                elements,
                window,
                k,
            ),
{
    let shown = shown_on(s.manager.outputs, output.name);
    let overlay = layer_items(layers, Layer::Overlay, Layer::Overlay);
    let top = layer_items(layers, Layer::Top, Layer::Top);
    let middle = output_items(s, shown, output, elements, shown.len() as int);
    let back = layer_items(layers, Layer::Background, Layer::Bottom);
    lemma_layer_items(layers, Layer::Overlay, Layer::Overlay);
    lemma_layer_items(layers, Layer::Top, Layer::Top);
    lemma_layer_items(layers, Layer::Background, Layer::Bottom);
    assert(!draws(overlay, window)) by {
        assert forall|i: int| 0 <= i < overlay.len() implies !#[trigger] is_window(
            overlay[i],
            window,
        ) by {
            assert(of_layer(layers, overlay[i], Layer::Overlay, Layer::Overlay));
        }
    }
    assert(!draws(top, window)) by {
        assert forall|i: int| 0 <= i < top.len() implies !#[trigger] is_window(top[i], window) by {
            assert(of_layer(layers, top[i], Layer::Top, Layer::Top));
        }
    }
    assert(!draws(back, window)) by {
        assert forall|i: int| 0 <= i < back.len() implies !#[trigger] is_window(
            back[i],
            window,
        ) by {
            assert(of_layer(layers, back[i], Layer::Background, Layer::Bottom));
        }
    }
    lemma_output_items_draw(s, shown, output, elements, shown.len() as int, window);
    lemma_draws_either(overlay, top, window);
    lemma_draws_either(overlay + top, middle, window);
    lemma_draws_either(overlay + top + middle, back, window);
}

/// The windows of which a region shows a part are drawn in the order of the list, each once for
/// each time that it is listed.
pub proof fn law_windows_in_order(scene: Scene, windows: Seq<WindowId>, i: int)
    ensures
        ({
            let seen = windows.filter(|x: WindowId| scene.seen(x) is Some);
            let items = scene.window_items(windows);
            &&& items.len() == seen.len()
            &&& 0 <= i < items.len() ==> is_window(items[i], seen[i])
        }),
    decreases windows.len(),
{
    reveal(Seq::filter);
    if windows.len() > 0 {
        law_windows_in_order(scene, windows.drop_last(), i);
    }
}

/// Whether a coordinate is clear of the bounds, even with a border added.
pub open spec fn clear(v: int) -> bool {
    fits_i32(v) && fits_i32(v + BORDER_WIDTH)
}

/// Whether a thing to draw is a rectangle of a color, at a place that is counted from the corner
/// of a virtual output and drawn on an output.
pub open spec fn solid_at(
    item: RenderItem,
    color: SolidColor,
    x: int,
    y: int,
    w: int,
    h: int,
    scene: Scene,
) -> bool {
    match item {
        RenderItem::Solid { color: drawn, location, size } => {
            &&& drawn == color
            &&& size.w == w
            &&& size.h == h
            &&& clear(x) && clear(x + scene.origin.x) && clear(x + scene.origin.x - scene.output.x)
                ==> location.x == x + scene.origin.x - scene.output.x
            &&& clear(y) && clear(y + scene.origin.y) && clear(y + scene.origin.y - scene.output.y)
                ==> location.y == y + scene.origin.y - scene.output.y
        },
        _ => false,
    }
}

/// Behind the windows and the tab bar of a workspace, a region draws a border around the focused
/// window, if that is tiled there and the region shows a part of it: a rectangle that is wider
/// than the window's by the width of the border on each side. Behind all lies a rectangle that
/// fills the area of the workspace, if it has windows.
pub proof fn law_border_and_background(scene: Scene, w: WorkspaceView)
    requires
        w.available_area.0.regular(),
        scene.focused matches Some(window) ==> w.rectangles.contains_key(window) ==> {
            let r = w.rectangles[window].0;
            r.size.w < i32::MAX - 2 * BORDER_WIDTH && r.size.h < i32::MAX - 2 * BORDER_WIDTH
                && r.loc.x > i32::MIN + BORDER_WIDTH && r.loc.y > i32::MIN + BORDER_WIDTH
        },
    ensures
        ({
            let items = scene.items(w);
            let front = scene.workspace_windows(w).len() + scene.tab_bar(w).len();
            let area = w.available_area.0;
            let filled = w.windows.len() > 0 && area.size.w > 0 && area.size.h > 0;
            let bordered = match scene.focused {
                Some(window) => {
                    &&& w.fullscreen is None
                    &&& w.windows.contains(window)
                    &&& scene.seen(window) is Some
                    &&& !w.floating.contains(window)
                    &&& w.rectangles.contains_key(window)
                    &&& w.rectangles[window].0.size.w > 0
                    &&& w.rectangles[window].0.size.h > 0
                },
                None => false,
            };
            &&& items.len() == front + (if bordered {
                1int
            } else {
                0
            }) + (if filled {
                1int
            } else {
                0
            })
            &&& bordered ==> {
                let r = w.rectangles[scene.focused.unwrap()].0;
                solid_at(
                    items[front as int],
                    SolidColor::Focused,
                    r.loc.x - BORDER_WIDTH,
                    r.loc.y - BORDER_WIDTH,
                    r.size.w + 2 * BORDER_WIDTH,
                    r.size.h + 2 * BORDER_WIDTH,
                    scene,
                )
            }
            &&& filled ==> solid_at(
                items.last(),
                SolidColor::Unfocused,
                area.loc.x as int,
                area.loc.y as int,
                area.size.w as int,
                area.size.h as int,
                scene,
            )
        }),
{
    let front = scene.workspace_windows(w) + scene.tab_bar(w);
    let border = scene.border(w);
    let background = scene.background(w);
    let items = scene.items(w);
    assert(items =~= front + (border + background));
    if border.len() > 0 {
        assert(items[front.len() as int] == border[0]);
    }
    if background.len() > 0 {
        assert(items.last() == background[0]);
    }
}

/// How many things the first tabs take: two for each that has a line behind it.
proof fn lemma_tabs_len(scene: Scene, w: WorkspaceView, k: int, i: int)
    requires
        0 <= k <= w.tiled().len(),
        0 <= i < k,
    ensures
        scene.tabs(w, k).len() == (if k == w.tiled().len() {
            2 * k - 1
        } else {
            2 * k
        }),
        scene.tabs(w, k)[2 * i] == scene.tab_items(w, i)[0],
        i < w.tiled().len() - 1 ==> scene.tabs(w, k)[2 * i + 1] == scene.tab_items(w, i)[1],
    decreases k,
{
    let before = scene.tabs(w, k - 1);
    assert(scene.tabs(w, k) == before + scene.tab_items(w, k - 1));
    if k > 1 {
        if i < k - 1 {
            lemma_tabs_len(scene, w, k - 1, i);
        } else {
            lemma_tabs_len(scene, w, k - 1, k - 2);
        }
    }
    assert(before.len() == 2 * (k - 1));
}

/// The tab bar of a workspace in tabbed mode lies along the upper edge of its area. It consists
/// of a rectangle for each tab and a line behind each but the last: the first tab begins at the
/// left edge, each line where its tab ends, each next tab where the line ends, and the last tab
/// ends at the right edge. The active tab alone has the color of the focus.
pub proof fn law_tab_bar(scene: Scene, w: WorkspaceView, i: int)
    requires
        w.layout_mode == LayoutMode::Tabbed,
        0 <= i < w.tiled().len(),
        w.available_area.0.regular(),
        w.available_area.0.size.w >= (SEPARATOR_WIDTH + 1) * w.tiled().len(),
    ensures
        ({
            let bar = scene.tab_bar(w);
            let area = w.available_area.0;
            let n = w.tiled().len() as int;
            let start = tab_start(area.size.w as int, n, i);
            let end = tab_end(area.size.w as int, n, i);
            &&& bar.len() == 2 * n - 1
            &&& solid_at(
                bar[2 * i],
                if i == w.active_tab {
                    SolidColor::Focused
                } else {
                    SolidColor::Unfocused
                },
                area.loc.x + start,
                area.loc.y as int,
                end - start,
                TAB_HEIGHT as int,
                scene,
            )
            &&& i < n - 1 ==> solid_at(
                bar[2 * i + 1],
                SolidColor::Separator,
                area.loc.x + end,
                area.loc.y as int,
                SEPARATOR_WIDTH as int,
                TAB_HEIGHT as int,
                scene,
            )
            &&& 0 <= start < end <= area.size.w
            &&& i == 0 ==> start == 0
            &&& i == n - 1 ==> end == area.size.w
            &&& i < n - 1 ==> tab_start(area.size.w as int, n, i + 1) == end + SEPARATOR_WIDTH
        }),
{
    let width = w.available_area.0.size.w as int;
    let n = w.tiled().len() as int;
    lemma_tabs_len(scene, w, n, i);
    law_tabs_fill_bar(width, n, i);
    law_tabs_even(width, n, i);
}

/// What is drawn for some layers grows by a surface exactly if the surface is in one of them and
/// has a place; it is drawn there, after those listed before it.
pub proof fn law_layer_listed(
    layers: Seq<LayerSurface>,
    l: LayerSurface,
    first: Layer,
    second: Layer,
)
    ensures
        ({
            let before = layer_items(layers, first, second);
            let after = layer_items(layers.push(l), first, second);
            &&& (l.layer == first || l.layer == second) && l.geometry is Some ==> after
                == before.push(
                RenderItem::Layer { surface: l.surface, location: l.geometry.unwrap().loc },
            )
            &&& !((l.layer == first || l.layer == second) && l.geometry is Some) ==> after
                == before
        }),
        layer_items(Seq::empty(), first, second).len() == 0,
{
    assert(layers.push(l).drop_last() =~= layers);
}

/// What is drawn of a workspace, front to back: its windows, the tab bar, the border of the focused
/// window, and the background behind all of them. A fullscreen window is drawn alone.
pub proof fn law_drawn_front_to_back(scene: Scene, w: WorkspaceView, i: int)
    requires
        0 <= i < scene.items(w).len(),
    ensures
        ({
            let windows = scene.workspace_windows(w).len() as int;
            let bar = windows + scene.tab_bar(w).len();
            let border = bar + scene.border(w).len();
            let items = scene.items(w);
            &&& i < windows ==> items[i] == scene.workspace_windows(w)[i]
            &&& windows <= i < bar ==> items[i] == scene.tab_bar(w)[i - windows]
            &&& bar <= i < border ==> items[i] == scene.border(w)[i - bar]
            &&& border <= i ==> items[i] == scene.background(w)[i - border]
            &&& items.len() == border + scene.background(w).len()
            &&& w.fullscreen matches Some(window) ==> scene.workspace_windows(w)
                == scene.window_item(window) && windows <= 1
            &&& w.fullscreen is None ==> scene.workspace_windows(w) == scene.window_items(w.windows)
            &&& w.layout_mode != LayoutMode::Tabbed ==> bar == windows
        }),
{
}

} // verus!
