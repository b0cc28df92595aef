//! A workspace: windows, their focus history and their layout.

use std::collections::{HashMap, HashSet};
use vstd::prelude::*;

use crate::shell::tiling::{TilingLayout, WindowId};
use crate::utils::coordinates::VirtualOutputRelativeRect;
use crate::utils::geometry::{Point, Rectangle, Size};
use crate::utils::lists;
use crate::utils::lists::{first_position, without, without_all};
use crate::utils::search::{first_below, lemma_is_first_below, lemma_none_below};

verus! {

broadcast use vstd::std_specs::hash::group_hash_axioms;

/// Stable identifier of a workspace.
#[derive(Debug, Clone, Copy, PartialEq, Eq, Hash, Structural)]
pub struct WorkspaceId(pub u64);

/// Identifier of a virtual output.
#[derive(Debug, Clone, Copy, PartialEq, Eq, Hash, Structural)]
pub struct VirtualOutputId(pub u32);

/// Height of the tab bar in pixels.
pub const TAB_HEIGHT: i32 = 6;

/// How a workspace lays out its windows.
#[derive(Debug, Clone, Copy, PartialEq, Eq, Structural)]
pub enum LayoutMode {
    /// Master and stack columns.
    Tiling,
    /// One window at a time, chosen by tabs.
    Tabbed,
}

/// The area of a workspace that no output has claimed yet.
pub open spec fn default_area() -> VirtualOutputRelativeRect {
    VirtualOutputRelativeRect(
        Rectangle { loc: Point { x: 0, y: 0 }, size: Size { w: 1920, h: 1080 } },
    )
}

/// What a workspace holds.
#[verifier::ext_equal]
pub struct WorkspaceView {
    pub name: Seq<char>,
    pub windows: Seq<WindowId>,
    pub fullscreen: Option<WindowId>,
    pub focus_stack: Seq<WindowId>,
    pub master_count: usize,
    pub floating: Set<WindowId>,
    pub needs_arrange: bool,
    pub rectangles: Map<WindowId, VirtualOutputRelativeRect>,
    pub available_area: VirtualOutputRelativeRect,
    pub layout_mode: LayoutMode,
    /// The tab that was chosen last. It stays chosen while there are fewer tabs, and is active
    /// again as soon as there are enough.
    pub chosen_tab: int,
    /// The tab that is shown.
    pub active_tab: int,
    pub virtual_output: Option<VirtualOutputId>,
}

impl WorkspaceView {
    /// Which windows count as tiled: those that neither float nor are fullscreen.
    pub open spec fn tiled_filter(self) -> spec_fn(WindowId) -> bool {
        |w: WindowId| !self.floating.contains(w) && self.fullscreen != Some(w)
    }

    /// The tiled windows, in order.
    pub open spec fn tiled(self) -> Seq<WindowId> {
        self.windows.filter(self.tiled_filter())
    }

    /// The windows that do not float, in order.
    pub open spec fn anchored_filter(self) -> spec_fn(WindowId) -> bool {
        |w: WindowId| !self.floating.contains(w)
    }

    /// The windows that do not float, in order.
    pub open spec fn anchored(self) -> Seq<WindowId> {
        self.windows.filter(self.anchored_filter())
    }

    /// Whether the active tab is one of the tabs, or the first where there are none.
    pub open spec fn tab_valid(self) -> bool {
        &&& self.tiled().len() > 0 ==> self.active_tab < self.tiled().len()
        &&& self.tiled().len() == 0 ==> self.active_tab == 0
    }

    /// The tab that the chosen one makes active: in tabbed mode that tab or else the last one,
    /// the first where there are no tabs.
    pub open spec fn tab_in_range(self) -> int {
        let n = self.tiled().len();
        if self.layout_mode == LayoutMode::Tabbed && self.chosen_tab >= n {
            if n > 0 {
                n - 1
            } else {
                0
            }
        } else {
            self.chosen_tab
        }
    }

    /// The workspace with the chosen tab active, as far as there are that many.
    pub open spec fn with_valid_tab(self) -> WorkspaceView {
        WorkspaceView { active_tab: self.tab_in_range(), ..self }
    }

    /// Whether the workspace is consistent, the active tab left aside.
    pub open spec fn consistent_but_tab(self) -> bool {
        &&& self.windows.no_duplicates()
        &&& forall|w: WindowId| #[trigger] self.floating.contains(w) ==> self.windows.contains(w)
        &&& forall|w: WindowId|
            #[trigger] self.focus_stack.contains(w) ==> self.windows.contains(w)
        &&& self.focus_stack.no_duplicates()
        &&& forall|w: WindowId|
            #[trigger] self.rectangles.contains_key(w) ==> self.windows.contains(w)
        &&& 0 <= self.chosen_tab < usize::MAX
    }

    /// Whether the workspace is consistent: no window is listed twice, whatever floats, has
    /// been focused or has a rectangle is one of the windows, and the active tab is the chosen
    /// one, brought into range in tabbed mode.
    pub open spec fn consistent(self) -> bool {
        &&& self.consistent_but_tab()
        &&& self.active_tab == self.tab_in_range()
        &&& self.layout_mode == LayoutMode::Tabbed ==> self.tab_valid()
    }

    /// An empty workspace.
    pub open spec fn empty(name: Seq<char>, master_count: usize) -> WorkspaceView {
        WorkspaceView {
            name,
            windows: Seq::empty(),
            fullscreen: None,
            focus_stack: Seq::empty(),
            master_count,
            floating: Set::empty(),
            needs_arrange: false,
            rectangles: Map::empty(),
            available_area: default_area(),
            layout_mode: LayoutMode::Tiling,
            chosen_tab: 0,
            active_tab: 0,
            virtual_output: None,
        }
    }

    /// The workspace with a window more. A window that is already there changes
    /// nothing. In tabbed mode a new tiled window becomes the active tab.
    pub open spec fn add_window(self, window: WindowId, floating: bool) -> WorkspaceView {
        if self.windows.contains(window) {
            self
        } else {
            let grown = WorkspaceView {
                windows: self.windows.push(window),
                floating: if floating {
                    self.floating.insert(window)
                } else {
                    self.floating
                },
                needs_arrange: true,
                ..self
            };
            let n = grown.tiled().len();
            if self.layout_mode == LayoutMode::Tabbed && !floating {
                WorkspaceView {
                    chosen_tab: if n > 0 {
                        n - 1
                    } else {
                        0
                    },
                    ..grown
                }.with_valid_tab()
            } else {
                grown.with_valid_tab()
            }
        }
    }

    /// Whether the window is that of the chosen tab.
    pub open spec fn shows_tab(self, window: WindowId) -> bool {
        &&& !self.floating.contains(window)
        &&& self.layout_mode == LayoutMode::Tabbed
        &&& self.chosen_tab < self.tiled().len()
        &&& self.tiled()[self.chosen_tab] == window
    }

    /// The workspace without a window. If it was that of the chosen tab, the tab that takes
    /// its place is chosen, or else the last. In tabbed mode the active tab stays in range.
    pub open spec fn remove_window(self, window: WindowId, dead: Seq<WindowId>) -> WorkspaceView {
        let shrunk = WorkspaceView {
            windows: without(self.windows, window),
            focus_stack: without(without_all(self.focus_stack, dead), window),
            floating: self.floating.remove(window),
            rectangles: self.rectangles.remove(window),
            fullscreen: if self.fullscreen == Some(window) {
                None
            } else {
                self.fullscreen
            },
            needs_arrange: self.needs_arrange || self.windows.contains(window),
            ..self
        };
        if self.shows_tab(window) {
            WorkspaceView { chosen_tab: shrunk.tab_in_range(), ..shrunk }.with_valid_tab()
        } else {
            shrunk.with_valid_tab()
        }
    }

    /// The workspace without the dead windows. In tabbed mode the active tab stays in range.
    pub open spec fn refresh(self, dead: Seq<WindowId>) -> WorkspaceView {
        WorkspaceView {
            windows: without_all(self.windows, dead),
            focus_stack: without_all(self.focus_stack, dead),
            floating: self.floating.difference(dead.to_set()),
            rectangles: self.rectangles.remove_keys(dead.to_set()),
            fullscreen: match self.fullscreen {
                Some(w) => if dead.contains(w) {
                    None
                } else {
                    Some(w)
                },
                None => None,
            },
            ..self
        }.with_valid_tab()
    }

    /// The workspace with the window focused last.
    pub open spec fn append_focus(self, window: WindowId) -> WorkspaceView {
        WorkspaceView { focus_stack: without(self.focus_stack, window).push(window), ..self }
    }

    /// The workspace in a new area.
    pub open spec fn update_output_geometry(self, area: VirtualOutputRelativeRect) -> WorkspaceView {
        if self.available_area == area {
            self
        } else {
            WorkspaceView { available_area: area, needs_arrange: true, ..self }
        }
    }

    /// The workspace in the other layout mode. Tabs open on the window that was
    /// focused last, if it is tiled, else on the first one.
    pub open spec fn toggle_layout_mode(self) -> WorkspaceView {
        match self.layout_mode {
            LayoutMode::Tiling => WorkspaceView {
                layout_mode: LayoutMode::Tabbed,
                chosen_tab: if self.focus_stack.len() > 0 {
                    match first_position(self.tiled(), self.focus_stack.last()) {
                        Some(i) => i,
                        None => 0,
                    }
                } else {
                    0
                },
                needs_arrange: true,
                ..self
            }.with_valid_tab(),
            LayoutMode::Tabbed => WorkspaceView {
                layout_mode: LayoutMode::Tiling,
                needs_arrange: true,
                ..self
            }.with_valid_tab(),
        }
    }

    /// The workspace with the tab at `index` chosen and its window focused last.
    pub open spec fn choose_tab(self, index: int) -> WorkspaceView {
        WorkspaceView {
            chosen_tab: index,
            active_tab: index,
            needs_arrange: true,
            ..self
        }.append_focus(self.tiled()[index])
    }

    /// Index of the tab after the active one, going round at the end.
    pub open spec fn next_index(self) -> int {
        (self.active_tab + 1) % (self.tiled().len() as int)
    }

    /// Index of the tab before the active one, going round at the start.
    pub open spec fn prev_index(self) -> int {
        if self.active_tab == 0 {
            self.tiled().len() - 1
        } else {
            self.active_tab - 1
        }
    }

    /// The workspace with a window shown fullscreen, or none. In tabbed mode the active tab
    /// stays in range; the chosen one is the same as before.
    pub open spec fn set_fullscreen(self, window: Option<WindowId>) -> WorkspaceView {
        WorkspaceView { fullscreen: window, needs_arrange: true, ..self }.with_valid_tab()
    }

    /// The workspace with a window changed from tiled to floating or back. In tabbed mode the
    /// active tab stays in range; the chosen one is the same as before.
    pub open spec fn toggle_floating(self, window: WindowId) -> WorkspaceView {
        if self.floating.contains(window) {
            WorkspaceView {
                floating: self.floating.remove(window),
                needs_arrange: true,
                ..self
            }.with_valid_tab()
        } else {
            WorkspaceView {
                floating: self.floating.insert(window),
                rectangles: self.rectangles.remove(window),
                needs_arrange: true,
                ..self
            }.with_valid_tab()
        }
    }

    /// Place of the first window that does not float: the first master window.
    pub open spec fn master(self) -> Option<int> {
        first_below(self.windows.len(), |i: int| !self.floating.contains(self.windows[i]))
    }

    /// The workspace with the windows at two places having changed places.
    pub open spec fn exchange(self, first: int, second: int) -> WorkspaceView {
        WorkspaceView {
            windows: self.windows.update(first, self.windows[second]).update(
                second,
                self.windows[first],
            ),
            needs_arrange: true,
            ..self
        }
    }

    /// The workspace with a window focused: last in the history and, in tabbed mode, the
    /// active tab.
    pub open spec fn focus(self, window: WindowId) -> WorkspaceView {
        let remembered = self.append_focus(window);
        match first_position(self.tiled(), window) {
            Some(i) => if self.layout_mode == LayoutMode::Tabbed {
                WorkspaceView {
                    chosen_tab: i,
                    active_tab: i,
                    needs_arrange: self.needs_arrange || self.chosen_tab != i,
                    ..remembered
                }
            } else {
                remembered
            },
            None => remembered,
        }
    }

    /// The workspace with another number of master windows.
    pub open spec fn inc_n_master(self, delta: i32) -> WorkspaceView {
        WorkspaceView {
            master_count: (if self.master_count + delta < 0 {
                0
            } else if self.master_count + delta > usize::MAX {
                usize::MAX as int
            } else {
                self.master_count + delta
            }) as usize,
            needs_arrange: true,
            ..self
        }
    }

    /// Whether there are tabs to switch between.
    pub open spec fn has_tabs(self) -> bool {
        self.layout_mode == LayoutMode::Tabbed && self.tiled().len() > 0
    }
}

/// The rectangles of windows after some of them got new ones.
pub open spec fn record_all(
    rectangles: Map<WindowId, VirtualOutputRelativeRect>,
    tiles: Seq<(WindowId, Rectangle)>,
) -> Map<WindowId, VirtualOutputRelativeRect>
    decreases tiles.len(),
{
    if tiles.len() == 0 {
        rectangles
    } else {
        record_all(rectangles, tiles.drop_last()).insert(
            tiles.last().0,
            VirtualOutputRelativeRect(tiles.last().1),
        )
    }
}

/// What `Workspace::validate_consistency` finds wrong.
#[derive(Debug, Clone, Copy, PartialEq, Eq, Structural)]
pub struct Findings {
    /// How many listed windows are dead.
    pub dead_windows: usize,
    /// Whether the active tab is beyond the last one. The invariant rules this out.
    pub invalid_tab: bool,
}

/// A workspace containing windows.
#[derive(Debug)]
pub struct Workspace {
    name: String,
    windows: Vec<WindowId>,
    fullscreen: Option<WindowId>,
    focus_stack: Vec<WindowId>,
    tiling: TilingLayout,
    floating_windows: HashSet<WindowId>,
    needs_arrange: bool,
    window_rectangles: HashMap<WindowId, VirtualOutputRelativeRect>,
    available_area: VirtualOutputRelativeRect,
    layout_mode: LayoutMode,
    chosen_tab: usize,
    active_tab_index: usize,
    virtual_output_id: Option<VirtualOutputId>,
}

impl View for Workspace {
    type V = WorkspaceView;

    closed spec fn view(&self) -> WorkspaceView {
        WorkspaceView {
            name: self.name@,
            windows: self.windows@,
            fullscreen: self.fullscreen,
            focus_stack: self.focus_stack@,
            master_count: self.tiling.master_count(),
            floating: self.floating_windows@,
            needs_arrange: self.needs_arrange,
            rectangles: self.window_rectangles@,
            available_area: self.available_area,
            layout_mode: self.layout_mode,
            chosen_tab: self.chosen_tab as int,
            active_tab: self.active_tab_index as int,
            virtual_output: self.virtual_output_id,
        }
    }
}

impl Workspace {
    /// The invariant: the workspace is consistent, and its tiling layout fills the
    /// same area.
    pub closed spec fn wf(self) -> bool {
        &&& self@.consistent()
        &&& self.tiling.area() == self.available_area
    }

    /// A new workspace with the given name. `n_master` is the text of the setting for
    /// the number of master windows, where there is one.
    pub fn new(name: String, n_master: Option<&str>) -> (r: Workspace)
        ensures
            r.wf(),
            r@ == WorkspaceView::empty(
                name@,
                TilingLayout::master_setting(
                    match n_master {
                        Some(text) => Some(text@),
                        None => None,
                    },
                ),
            ),
    {
        let area = VirtualOutputRelativeRect(
            Rectangle { loc: Point { x: 0, y: 0 }, size: Size { w: 1920, h: 1080 } },
        );
        let r = Workspace {
            name,
            windows: Vec::new(),
            fullscreen: None,
            focus_stack: Vec::new(),
            tiling: TilingLayout::new(area, n_master),
            floating_windows: HashSet::new(),
            needs_arrange: false,
            window_rectangles: HashMap::new(),
            available_area: area,
            layout_mode: LayoutMode::Tiling,
            chosen_tab: 0,
            active_tab_index: 0,
            virtual_output_id: None,
        };
        r
    }

    /// In a well-formed workspace no window is listed twice, whatever floats, has been focused
    /// or has a rectangle is one of the windows, and in tabbed mode the active tab is one of
    /// the tabs.
    pub proof fn law_wf(self)
        requires
            self.wf(),
        ensures
            self@.consistent(),
    {
    }

    /// Makes the chosen tab active, as far as there are that many.
    fn mend_tab(&mut self)
        requires
            old(self)@.consistent_but_tab(),
            old(self).tiling.area() == old(self).available_area,
        ensures
            final(self).wf(),
            final(self)@ == old(self)@.with_valid_tab(),
    {
        self.active_tab_index = self.range_tab();
        proof {
            lemma_tiled_frame(old(self)@, self@);
            assert(self@ =~= old(self)@.with_valid_tab());
        }
    }

    /// The tab that the chosen one makes active.
    fn range_tab(&self) -> (r: usize)
        ensures
            r == self@.tab_in_range(),
    {
        match self.layout_mode {
            LayoutMode::Tabbed => {
                let count: usize = self.tiled_windows().len();
                if self.chosen_tab >= count {
                    count.saturating_sub(1)
                } else {
                    self.chosen_tab
                }
            },
            LayoutMode::Tiling => self.chosen_tab,
        }
    }

    /// The user-visible name.
    pub fn name(&self) -> (r: &String)
        ensures
            r@ == self@.name,
    {
        &self.name
    }

    /// The windows, in order.
    pub fn windows(&self) -> (r: &Vec<WindowId>)
        ensures
            r@ == self@.windows,
    {
        &self.windows
    }

    /// The fullscreen window, if any.
    pub fn fullscreen(&self) -> (r: Option<WindowId>)
        ensures
            r == self@.fullscreen,
    {
        self.fullscreen
    }

    /// The focus history; the window focused last comes last.
    pub fn focus_stack(&self) -> (r: &Vec<WindowId>)
        ensures
            r@ == self@.focus_stack,
    {
        &self.focus_stack
    }

    /// The tiling layout.
    pub fn tiling(&self) -> (r: &TilingLayout)
        requires
            self.wf(),
        ensures
            r.area() == self@.available_area,
            r.master_count() == self@.master_count,
    {
        &self.tiling
    }

    /// Whether windows have to be arranged again.
    pub fn needs_arrange(&self) -> (r: bool)
        ensures
            r == self@.needs_arrange,
    {
        self.needs_arrange
    }

    /// The area of the last arrangement.
    pub fn available_area(&self) -> (r: VirtualOutputRelativeRect)
        ensures
            r == self@.available_area,
    {
        self.available_area
    }

    /// The layout mode.
    pub fn layout_mode(&self) -> (r: LayoutMode)
        ensures
            r == self@.layout_mode,
    {
        self.layout_mode
    }

    /// Index of the active tab.
    pub fn active_tab_index(&self) -> (r: usize)
        ensures
            r == self@.active_tab,
    {
        self.active_tab_index
    }

    /// The virtual output that the workspace was last shown on.
    pub fn virtual_output_id(&self) -> (r: Option<VirtualOutputId>)
        ensures
            r == self@.virtual_output,
    {
        self.virtual_output_id
    }

    /// Whether the window is one of the workspace's.
    pub fn contains(&self, window: WindowId) -> (r: bool)
        ensures
            r == self@.windows.contains(window),
    {
        lists::contains(&self.windows, window)
    }

    /// Whether the window floats.
    pub fn is_floating(&self, window: WindowId) -> (r: bool)
        ensures
            r == self@.floating.contains(window),
    {
        self.floating_windows.contains(&window)
    }

    /// The rectangle that the last arrangement gave a window.
    pub fn rectangle_of(&self, window: WindowId) -> (r: Option<VirtualOutputRelativeRect>)
        ensures
            r == (if self@.rectangles.contains_key(window) {
                Some(self@.rectangles[window])
            } else {
                None
            }),
    {
        match self.window_rectangles.get(&window) {
            Some(rect) => Some(*rect),
            None => None,
        }
    }

    /// The tiled windows, in order.
    pub fn tiled_windows(&self) -> (r: Vec<WindowId>)
        ensures
            r@ == self@.tiled(),
    {
        let ghost pred = self@.tiled_filter();
        let mut kept: Vec<WindowId> = Vec::new();
        let mut i: usize = 0;
        assert(self.windows@.take(0).filter(pred) =~= Seq::<WindowId>::empty()) by {
            reveal(Seq::filter);
        }
        while i < self.windows.len()
            invariant
                i <= self.windows@.len(),
                pred == self@.tiled_filter(),
                kept@ == self.windows@.take(i as int).filter(pred),
            decreases self.windows@.len() - i,
        {
            let w = self.windows[i];
            proof {
                lists::lemma_filter_step(self.windows@, pred, i as int);
            }
            let is_fullscreen = match self.fullscreen {
                Some(f) => f == w,
                None => false,
            };
            if !self.floating_windows.contains(&w) && !is_fullscreen {
                kept.push(w);
            }
            i = i + 1;
        }
        assert(self.windows@.take(i as int) =~= self.windows@);
        kept
    }

    /// The windows that do not float, in order.
    pub fn anchored_windows(&self) -> (r: Vec<WindowId>)
        ensures
            r@ == self@.anchored(),
    {
        let ghost pred = self@.anchored_filter();
        let mut kept: Vec<WindowId> = Vec::new();
        let mut i: usize = 0;
        assert(self.windows@.take(0).filter(pred) =~= Seq::<WindowId>::empty()) by {
            reveal(Seq::filter);
        }
        while i < self.windows.len()
            invariant
                i <= self.windows@.len(),
                pred == self@.anchored_filter(),
                kept@ == self.windows@.take(i as int).filter(pred),
            decreases self.windows@.len() - i,
        {
            let w = self.windows[i];
            proof {
                lists::lemma_filter_step(self.windows@, pred, i as int);
            }
            if !self.floating_windows.contains(&w) {
                kept.push(w);
            }
            i = i + 1;
        }
        assert(self.windows@.take(i as int) =~= self.windows@);
        kept
    }

    /// Adds a window.
    pub fn add_window(&mut self, window: WindowId, floating: bool)
        requires
            old(self).wf(),
        ensures
            final(self).wf(),
            final(self)@ == old(self)@.add_window(window, floating),
    {
        if lists::contains(&self.windows, window) {
            return;
        }
        self.windows.push(window);
        if floating {
            self.floating_windows.insert(window);
        }
        self.needs_arrange = true;
        proof {
            let before = old(self)@.windows;
            let after = before.push(window);
            assert forall|w: WindowId| before.contains(w) implies after.contains(w) by {
                let k = choose|k: int| 0 <= k < before.len() && before[k] == w;
                assert(after[k] == w);
            }
            assert(after[after.len() - 1] == window);
        }
        match self.layout_mode {
            LayoutMode::Tabbed => {
                if !floating {
                    let tiled_count: usize = self.tiled_windows().len();
                    self.chosen_tab = tiled_count.saturating_sub(1);
                }
            },
            LayoutMode::Tiling => {},
        }
        self.mend_tab();
    }

    /// Removes a window and says whether it was there. `dead` lists windows that are
    /// no longer alive; they leave the focus history.
    pub fn remove_window(&mut self, window: WindowId, dead: &Vec<WindowId>) -> (r: bool)
        requires
            old(self).wf(),
        ensures
            final(self).wf(),
            final(self)@ == old(self)@.remove_window(window, dead@),
            final(self)@.layout_mode == LayoutMode::Tabbed ==> final(self)@.tab_valid(),
            r == old(self)@.windows.contains(window),
    {
        let was_chosen = match self.layout_mode {
            LayoutMode::Tabbed => {
                let tiled = self.tiled_windows();
                !self.floating_windows.contains(&window) && self.chosen_tab < tiled.len()
                    && tiled[self.chosen_tab] == window
            },
            LayoutMode::Tiling => false,
        };
        let original_len: usize = self.windows.len();
        self.windows = lists::remove_value(&self.windows, window);
        let was_present = self.windows.len() < original_len;
        self.focus_stack = lists::remove_value(&lists::remove_all(&self.focus_stack, dead), window);
        self.floating_windows.remove(&window);
        self.window_rectangles.remove(&window);
        match self.fullscreen {
            Some(f) => {
                if f == window {
                    self.fullscreen = None;
                }
            },
            None => {},
        }
        if was_present {
            self.needs_arrange = true;
        }
        proof {
            lemma_removal_consistent(
                old(self)@,
                window,
                dead@,
                self@,
            );
        }
        if was_chosen {
            self.chosen_tab = self.range_tab();
        }
        self.mend_tab();
        was_present
    }

    /// Forgets the dead windows.
    pub fn refresh(&mut self, dead: &Vec<WindowId>)
        requires
            old(self).wf(),
        ensures
            final(self).wf(),
            final(self)@ == old(self)@.refresh(dead@),
            final(self)@.layout_mode == LayoutMode::Tabbed ==> final(self)@.tab_valid(),
    {
        self.windows = lists::remove_all(&self.windows, dead);
        self.focus_stack = lists::remove_all(&self.focus_stack, dead);
        let mut i: usize = 0;
        assert(old(self)@.rectangles.remove_keys(dead@.take(0).to_set())
            =~= old(self)@.rectangles);
        while i < dead.len()
            invariant
                i <= dead@.len(),
                self.floating_windows@ =~= old(self)@.floating.difference(
                    dead@.take(i as int).to_set(),
                ),
                self.window_rectangles@ =~= old(self)@.rectangles.remove_keys(
                    dead@.take(i as int).to_set(),
                ),
                self.windows@ == without_all(old(self)@.windows, dead@),
                self.focus_stack@ == without_all(old(self)@.focus_stack, dead@),
                self.name@ == old(self)@.name,
                self.fullscreen == old(self)@.fullscreen,
                self.tiling.master_count() == old(self)@.master_count,
                self.tiling.area() == self.available_area,
                self.needs_arrange == old(self)@.needs_arrange,
                self.available_area == old(self)@.available_area,
                self.layout_mode == old(self)@.layout_mode,
                self.chosen_tab == old(self)@.chosen_tab,
                self.virtual_output_id == old(self)@.virtual_output,
            decreases dead@.len() - i,
        {
            let w = dead[i];
            self.floating_windows.remove(&w);
            self.window_rectangles.remove(&w);
            proof {
                let a = dead@.take(i as int);
                let b = dead@.take(i + 1);
                assert(b =~= a.push(w));
                assert forall|x: WindowId| b.to_set().contains(x) == (a.to_set().contains(x) || x
                    == w) by {
                    if a.contains(x) {
                        let k = choose|k: int| 0 <= k < a.len() && a[k] == x;
                        assert(b[k] == x);
                    }
                    if x == w {
                        assert(b[i as int] == x);
                    }
                }
            }
            i = i + 1;
        }
        assert(dead@.take(i as int) =~= dead@);
        match self.fullscreen {
            Some(f) => {
                if lists::contains(dead, f) {
                    self.fullscreen = None;
                }
            },
            None => {},
        }
        proof {
            lemma_refresh_consistent(old(self)@, dead@, self@);
        }
        self.mend_tab();
        assert(self@ =~= old(self)@.refresh(dead@));
    }

    /// Moves a window to the end of the focus history.
    pub fn append_focus(&mut self, window: WindowId)
        requires
            old(self).wf(),
            old(self)@.windows.contains(window),
        ensures
            final(self).wf(),
            final(self)@ == old(self)@.append_focus(window),
    {
        self.focus_stack = lists::remove_value(&self.focus_stack, window);
        self.focus_stack.push(window);
        proof {
            lemma_append_focus_consistent(old(self)@, window);
            assert(self@ =~= old(self)@.append_focus(window));
        }
    }

    /// Changes the area that windows are tiled in, if it differs.
    pub fn update_output_geometry(&mut self, area: VirtualOutputRelativeRect)
        requires
            old(self).wf(),
        ensures
            final(self).wf(),
            final(self)@ == old(self)@.update_output_geometry(area),
    {
        if self.available_area != area {
            self.available_area = area;
            self.tiling.set_available_area(area);
            self.needs_arrange = true;
            proof {
                lemma_same_members_consistent(old(self)@, self@);
            }
        }
    }

    /// Toggles between tiling and tabbed layout.
    pub fn toggle_layout_mode(&mut self)
        requires
            old(self).wf(),
        ensures
            final(self).wf(),
            final(self)@ == old(self)@.toggle_layout_mode(),
    {
        match self.layout_mode {
            LayoutMode::Tiling => {
                let tiled = self.tiled_windows();
                self.layout_mode = LayoutMode::Tabbed;
                self.chosen_tab = 0;
                if self.focus_stack.len() > 0 {
                    let focused = self.focus_stack[self.focus_stack.len() - 1];
                    match lists::position(&tiled, focused) {
                        Some(index) => {
                            assert(index < tiled.len());
                            self.chosen_tab = index;
                        },
                        None => {},
                    }
                }
            },
            LayoutMode::Tabbed => {
                self.layout_mode = LayoutMode::Tiling;
            },
        }
        self.needs_arrange = true;
        self.mend_tab();
    }

    /// Makes `index` the active tab and focuses its window.
    fn choose_tab(&mut self, index: usize, tiled: &Vec<WindowId>) -> (r: WindowId)
        requires
            old(self).wf(),
            tiled@ == old(self)@.tiled(),
            index < tiled@.len(),
        ensures
            final(self).wf(),
            final(self)@ == old(self)@.choose_tab(index as int),
            r == old(self)@.tiled()[index as int],
    {
        self.chosen_tab = index;
        self.active_tab_index = index;
        self.needs_arrange = true;
        assert(index < tiled.len());
        let window = tiled[index];
        proof {
            assert(old(self)@.tiled().contains(window));
            lists::lemma_filter_contains(old(self)@.windows, old(self)@.tiled_filter(), window);
            lemma_tiled_frame(old(self)@, self@);
            lemma_same_members_consistent(old(self)@, self@);
        }
        self.append_focus(window);
        window
    }

    /// Switches to the next tab and gives its window.
    pub fn next_tab(&mut self) -> (r: Option<WindowId>)
        requires
            old(self).wf(),
        ensures
            final(self).wf(),
            old(self)@.has_tabs() ==> final(self)@ == old(self)@.choose_tab(
                old(self)@.next_index(),
            ) && r == Some(old(self)@.tiled()[old(self)@.next_index()]),
            !old(self)@.has_tabs() ==> final(self)@ == old(self)@ && r is None,
    {
        match self.layout_mode {
            LayoutMode::Tabbed => {},
            LayoutMode::Tiling => {
                return None;
            },
        }
        let tiled = self.tiled_windows();
        if tiled.is_empty() {
            return None;
        }
        let index: usize = (self.active_tab_index + 1) % tiled.len();
        Some(self.choose_tab(index, &tiled))
    }

    /// Switches to the previous tab and gives its window.
    pub fn prev_tab(&mut self) -> (r: Option<WindowId>)
        requires
            old(self).wf(),
        ensures
            final(self).wf(),
            old(self)@.has_tabs() ==> final(self)@ == old(self)@.choose_tab(
                old(self)@.prev_index(),
            ) && r == Some(old(self)@.tiled()[old(self)@.prev_index()]),
            !old(self)@.has_tabs() ==> final(self)@ == old(self)@ && r is None,
    {
        match self.layout_mode {
            LayoutMode::Tabbed => {},
            LayoutMode::Tiling => {
                return None;
            },
        }
        let tiled = self.tiled_windows();
        if tiled.is_empty() {
            return None;
        }
        let index: usize = if self.active_tab_index == 0 {
            tiled.len() - 1
        } else {
            self.active_tab_index - 1
        };
        Some(self.choose_tab(index, &tiled))
    }

    /// Shows a window fullscreen, or none.
    pub(crate) fn set_fullscreen(&mut self, window: Option<WindowId>)
        requires
            old(self).wf(),
        ensures
            final(self).wf(),
            final(self)@ == old(self)@.set_fullscreen(window),
            final(self)@.layout_mode == LayoutMode::Tabbed ==> final(self)@.tab_valid(),
    {
        self.fullscreen = window;
        self.needs_arrange = true;
        self.mend_tab();
    }

    /// Notes whether windows have to be arranged again.
    pub fn set_needs_arrange(&mut self, needs_arrange: bool)
        requires
            old(self).wf(),
        ensures
            final(self).wf(),
            final(self)@ == (WorkspaceView { needs_arrange, ..old(self)@ }),
    {
        self.needs_arrange = needs_arrange;
        proof {
            lemma_same_members_consistent(old(self)@, self@);
        }
    }

    /// Notes the virtual output that the workspace is shown on.
    pub(crate) fn set_virtual_output(&mut self, id: VirtualOutputId)
        requires
            old(self).wf(),
        ensures
            final(self).wf(),
            final(self)@ == (WorkspaceView { virtual_output: Some(id), ..old(self)@ }),
    {
        self.virtual_output_id = Some(id);
        proof {
            lemma_same_members_consistent(old(self)@, self@);
        }
    }

    /// Changes a window from tiled to floating or back, and says whether it floats now.
    pub(crate) fn toggle_floating(&mut self, window: WindowId) -> (r: bool)
        requires
            old(self).wf(),
            old(self)@.windows.contains(window),
        ensures
            final(self).wf(),
            final(self)@ == old(self)@.toggle_floating(window),
            final(self)@.layout_mode == LayoutMode::Tabbed ==> final(self)@.tab_valid(),
            r == !old(self)@.floating.contains(window),
    {
        let floats = if self.floating_windows.contains(&window) {
            self.floating_windows.remove(&window);
            false
        } else {
            self.floating_windows.insert(window);
            self.window_rectangles.remove(&window);
            true
        };
        self.needs_arrange = true;
        self.mend_tab();
        floats
    }

    /// Place of the first window that does not float.
    pub fn find_master(&self) -> (r: Option<usize>)
        ensures
            match r {
                Some(i) => i < self@.windows.len() && self@.master() == Some(i as int),
                None => self@.master() is None,
            },
    {
        let ghost p = |i: int| !self@.floating.contains(self@.windows[i]);
        let mut i: usize = 0;
        while i < self.windows.len()
            invariant
                i <= self.windows@.len(),
                p == |i: int| !self@.floating.contains(self@.windows[i]),
                forall|j: int| 0 <= j < i ==> !(#[trigger] p(j)),
            decreases self.windows@.len() - i,
        {
            if !self.floating_windows.contains(&self.windows[i]) {
                proof {
                    assert(p(i as int));
                    lemma_is_first_below(self@.windows.len(), p, i as int);
                }
                return Some(i);
            }
            assert(!p(i as int));
            i = i + 1;
        }
        proof {
            lemma_none_below(self@.windows.len(), p);
        }
        None
    }

    /// Lets the windows at two places change places.
    pub(crate) fn exchange(&mut self, first: usize, second: usize)
        requires
            old(self).wf(),
            first < second < old(self)@.windows.len(),
        ensures
            final(self).wf(),
            final(self)@ == old(self)@.exchange(first as int, second as int),
    {
        let a = self.windows[first];
        let b = self.windows[second];
        self.windows.set(first, b);
        self.windows.set(second, a);
        self.needs_arrange = true;
        proof {
            lemma_exchange_consistent(old(self)@, first as int, second as int);
        }
    }

    /// Notes that a window has the focus.
    pub(crate) fn focus(&mut self, window: WindowId)
        requires
            old(self).wf(),
            old(self)@.windows.contains(window),
        ensures
            final(self).wf(),
            final(self)@ == old(self)@.focus(window),
    {
        let tiled = self.tiled_windows();
        self.append_focus(window);
        let ghost remembered = self@;
        proof {
            lemma_tiled_frame(old(self)@, remembered);
        }
        match self.layout_mode {
            LayoutMode::Tabbed => {
                match lists::position(&tiled, window) {
                    Some(index) => {
                        assert(index < tiled.len());
                        if self.chosen_tab != index {
                            self.needs_arrange = true;
                        }
                        self.chosen_tab = index;
                        self.active_tab_index = index;
                    },
                    None => {},
                }
            },
            LayoutMode::Tiling => {},
        }
        proof {
            lemma_tiled_frame(remembered, self@);
            lemma_same_members_consistent(remembered, self@);
        }
    }

    /// Chooses the tab at `index` and focuses its window.
    pub(crate) fn click_tab(&mut self, index: usize) -> (r: WindowId)
        requires
            old(self).wf(),
            index < old(self)@.tiled().len(),
        ensures
            final(self).wf(),
            final(self)@ == old(self)@.choose_tab(index as int),
            r == old(self)@.tiled()[index as int],
    {
        let tiled = self.tiled_windows();
        self.choose_tab(index, &tiled)
    }

    /// Changes the number of master windows.
    pub fn inc_n_master(&mut self, delta: i32)
        requires
            old(self).wf(),
        ensures
            final(self).wf(),
            final(self)@ == old(self)@.inc_n_master(delta),
    {
        self.tiling.inc_n_master(delta);
        self.needs_arrange = true;
        proof {
            lemma_same_members_consistent(old(self)@, self@);
        }
    }

    /// Remembers the rectangles that an arrangement gives to windows.
    pub(crate) fn record_rectangles(&mut self, tiles: &Vec<(WindowId, Rectangle)>)
        requires
            old(self).wf(),
            forall|i: int|
                0 <= i < tiles@.len() ==> old(self)@.windows.contains((#[trigger] tiles@[i]).0),
        ensures
            final(self).wf(),
            final(self)@ == (WorkspaceView {
                rectangles: record_all(old(self)@.rectangles, tiles@),
                ..old(self)@
            }),
    {
        let mut i: usize = 0;
        assert(tiles@.take(0) =~= Seq::<(WindowId, Rectangle)>::empty());
        while i < tiles.len()
            invariant
                i <= tiles@.len(),
                forall|i: int|
                    0 <= i < tiles@.len() ==> old(self)@.windows.contains((#[trigger] tiles@[i]).0),
                self.wf(),
                self@ == (WorkspaceView {
                    rectangles: record_all(old(self)@.rectangles, tiles@.take(i as int)),
                    ..old(self)@
                }),
            decreases tiles@.len() - i,
        {
            let (window, rect) = tiles[i];
            proof {
                assert(tiles@.take(i + 1).drop_last() =~= tiles@.take(i as int));
                assert(tiles@.take(i + 1).last() == tiles@[i as int]);
            }
            let ghost before = self@;
            self.window_rectangles.insert(window, VirtualOutputRelativeRect(rect));
            proof {
                assert(tiles@[i as int].0 == window);
                lemma_rectangle_consistent(before, self@, window);
            }
            i = i + 1;
        }
        assert(tiles@.take(i as int) =~= tiles@);
    }

    /// Looks for dead windows that are still listed and for an active tab beyond the last one;
    /// the invariant rules the second out.
    pub fn validate_consistency(&self, dead: &Vec<WindowId>) -> (r: Findings)
        ensures
            r.dead_windows == self@.windows.len() - without_all(self@.windows, dead@).len(),
            r.invalid_tab == (self@.has_tabs() && self@.active_tab >= self@.tiled().len()),
            self.wf() ==> !r.invalid_tab,
    {
        let alive = lists::remove_all(&self.windows, dead);
        proof {
            self.windows@.lemma_filter_len(lists::not_among(dead@));
        }
        let tabbed = match self.layout_mode {
            LayoutMode::Tabbed => true,
            LayoutMode::Tiling => false,
        };
        let invalid_tab = if tabbed {
            let tiled_count: usize = self.tiled_windows().len();
            self.active_tab_index >= tiled_count && tiled_count > 0
        } else {
            false
        };
        Findings { dead_windows: self.windows.len() - alive.len(), invalid_tab }
    }
}

/// Which windows are tiled depends on the windows, on what floats and on what is
/// fullscreen, and on nothing else.
pub proof fn lemma_tiled_frame(a: WorkspaceView, b: WorkspaceView)
    requires
        a.windows == b.windows,
        a.floating == b.floating,
        a.fullscreen == b.fullscreen,
    ensures
        a.tiled() == b.tiled(),
        a.anchored() == b.anchored(),
{
    assert(a.tiled_filter() =~= b.tiled_filter());
    assert(a.anchored_filter() =~= b.anchored_filter());
}

/// A workspace whose active tab was brought into range has it in range, and it is the chosen
/// one if there are that many tabs.
pub proof fn law_tab_in_range(w: WorkspaceView)
    requires
        w.layout_mode == LayoutMode::Tabbed,
        0 <= w.chosen_tab,
    ensures
        w.with_valid_tab().tab_valid(),
        w.with_valid_tab().chosen_tab == w.chosen_tab,
        w.chosen_tab < w.tiled().len() ==> w.with_valid_tab().active_tab == w.chosen_tab,
{
    lemma_tiled_frame(w, w.with_valid_tab());
}

proof fn lemma_same_members_consistent(before: WorkspaceView, after: WorkspaceView)
    requires
        before.consistent(),
        after.windows == before.windows,
        after.floating == before.floating,
        after.fullscreen == before.fullscreen,
        after.focus_stack == before.focus_stack,
        after.rectangles == before.rectangles,
        after.layout_mode == before.layout_mode,
        (after.chosen_tab == before.chosen_tab && after.active_tab == before.active_tab) || (0
            <= after.chosen_tab == after.active_tab < after.tiled().len() <= usize::MAX),
    ensures
        after.consistent(),
        after.tiled() == before.tiled(),
{
    lemma_tiled_frame(before, after);
}

/// Windows that change places stay windows, and as many of them are tiled.
proof fn lemma_exchange_consistent(w: WorkspaceView, first: int, second: int)
    requires
        w.consistent(),
        0 <= first < second < w.windows.len(),
    ensures
        w.exchange(first, second).consistent(),
{
    let after = w.exchange(first, second);
    let a = w.windows;
    let b = after.windows;
    assert forall|x: WindowId| a.contains(x) implies b.contains(x) by {
        let k = choose|k: int| 0 <= k < a.len() && a[k] == x;
        if k == first {
            assert(b[second] == x);
        } else if k == second {
            assert(b[first] == x);
        } else {
            assert(b[k] == x);
        }
    }
    let p = w.tiled_filter();
    assert(after.tiled_filter() =~= p);
    let middle = a.update(first, a[second]);
    lists::lemma_filter_update(a, p, first, a[second]);
    lists::lemma_filter_update(middle, p, second, a[first]);
}

proof fn lemma_rectangle_consistent(before: WorkspaceView, after: WorkspaceView, window: WindowId)
    requires
        before.consistent(),
        before.windows.contains(window),
        after.windows == before.windows,
        after.floating == before.floating,
        after.focus_stack == before.focus_stack,
        after.fullscreen == before.fullscreen,
        after.layout_mode == before.layout_mode,
        after.chosen_tab == before.chosen_tab,
        after.active_tab == before.active_tab,
        after.rectangles.dom() == before.rectangles.dom().insert(window),
    ensures
        after.consistent(),
{
    lemma_tiled_frame(before, after);
    assert forall|w: WindowId| #[trigger]
        after.rectangles.contains_key(w) implies after.windows.contains(w) by {
        if w != window {
            assert(before.rectangles.contains_key(w));
        }
    }
}

proof fn lemma_removal_consistent(
    before: WorkspaceView,
    window: WindowId,
    dead: Seq<WindowId>,
    after: WorkspaceView,
)
    requires
        before.consistent(),
        after.windows == without(before.windows, window),
        after.focus_stack == without(without_all(before.focus_stack, dead), window),
        after.floating == before.floating.remove(window),
        after.rectangles == before.rectangles.remove(window),
        after.chosen_tab == before.chosen_tab,
    ensures
        after.consistent_but_tab(),
{
    let keep = lists::other_than(window);
    let alive = lists::not_among(dead);
    lists::lemma_filter_no_duplicates(before.windows, keep);
    lists::lemma_filter_no_duplicates(before.focus_stack, alive);
    lists::lemma_filter_no_duplicates(without_all(before.focus_stack, dead), keep);
    assert forall|w: WindowId| after.focus_stack.contains(w) implies after.windows.contains(w) by {
        lists::lemma_filter_contains(without_all(before.focus_stack, dead), keep, w);
        lists::lemma_filter_contains(before.focus_stack, alive, w);
        lists::lemma_filter_contains(before.windows, keep, w);
    }
    assert forall|w: WindowId| after.floating.contains(w) implies after.windows.contains(w) by {
        assert(before.floating.contains(w));
        lists::lemma_filter_contains(before.windows, keep, w);
    }
    assert forall|w: WindowId| after.rectangles.contains_key(w) implies after.windows.contains(
        w,
    ) by {
        assert(before.rectangles.contains_key(w));
        lists::lemma_filter_contains(before.windows, keep, w);
    }
}

proof fn lemma_refresh_consistent(
    before: WorkspaceView,
    dead: Seq<WindowId>,
    after: WorkspaceView,
)
    requires
        before.consistent(),
        after.windows == without_all(before.windows, dead),
        after.focus_stack == without_all(before.focus_stack, dead),
        after.floating =~= before.floating.difference(dead.to_set()),
        after.rectangles =~= before.rectangles.remove_keys(dead.to_set()),
        after.chosen_tab == before.chosen_tab,
    ensures
        after.consistent_but_tab(),
{
    let alive = lists::not_among(dead);
    lists::lemma_filter_no_duplicates(before.windows, alive);
    lists::lemma_filter_no_duplicates(before.focus_stack, alive);
    assert forall|w: WindowId| after.focus_stack.contains(w) implies after.windows.contains(w) by {
        lists::lemma_filter_contains(before.focus_stack, alive, w);
        lists::lemma_filter_contains(before.windows, alive, w);
    }
    assert forall|w: WindowId| after.floating.contains(w) implies after.windows.contains(w) by {
        assert(before.floating.contains(w));
        lists::lemma_filter_contains(before.windows, alive, w);
    }
    assert forall|w: WindowId| after.rectangles.contains_key(w) implies after.windows.contains(
        w,
    ) by {
        assert(before.rectangles.contains_key(w));
        lists::lemma_filter_contains(before.windows, alive, w);
    }
}

proof fn lemma_append_focus_consistent(before: WorkspaceView, window: WindowId)
    requires
        before.consistent(),
        before.windows.contains(window),
    ensures
        before.append_focus(window).consistent(),
{
    let keep = lists::other_than(window);
    let after = before.append_focus(window);
    let rest = without(before.focus_stack, window);
    lemma_tiled_frame(before, after);
    lists::lemma_filter_no_duplicates(before.focus_stack, keep);
    lists::lemma_filter_contains(before.focus_stack, keep, window);
    assert forall|w: WindowId| after.focus_stack.contains(w) implies after.windows.contains(w) by {
        lists::lemma_filter_contains(before.focus_stack, keep, w);
        let k = choose|k: int| 0 <= k < after.focus_stack.len() && after.focus_stack[k] == w;
        if k < rest.len() {
            assert(rest[k] == w);
        }
    }
}

} // verus!
