//! A graphics device: the modes of its displays, the steps by which a connected display
//! becomes an output, and when its rendering context is made and dropped.

use vstd::prelude::*;

use crate::backend::drm_helpers;
use crate::backend::surface::{SurfaceEntry, SurfaceManager};
use crate::shell::output::{Scale, Transform};
use crate::utils::geometry::{Point, Size};
use crate::utils::search;
use crate::utils::table;
use crate::utils::table::Table;

verus! {

/// A mode as the device reports it.
#[derive(Debug, Clone, Copy, PartialEq, Eq, Structural)]
pub struct DrmMode {
    pub width: u16,
    pub height: u16,
    /// The pixel clock in kilohertz.
    pub clock: u32,
    /// The pixels of a line, blanking and all.
    pub htotal: u16,
    /// The lines of a frame, blanking and all.
    pub vtotal: u16,
    pub preferred: bool,
}

/// A mode of an output: its size in pixels and its refresh rate in thousandths of a hertz.
#[derive(Debug, Clone, Copy, PartialEq, Eq, Structural)]
pub struct OutputMode {
    pub size: Size,
    pub refresh: i32,
}

/// Whether the mode has a frame at all.
pub open spec fn is_regular(mode: DrmMode) -> bool {
    mode.htotal > 0 && mode.vtotal > 0
}

/// The mode of an output that a mode of the device gives.
pub open spec fn output_mode(mode: DrmMode) -> OutputMode {
    OutputMode {
        size: Size { w: mode.width as i32, h: mode.height as i32 },
        refresh: drm_helpers::refresh_rate(mode.clock, mode.htotal, mode.vtotal) as u32 as i32,
    }
}

/// The modes of an output that the modes of the device give.
pub open spec fn output_modes(modes: Seq<DrmMode>) -> Seq<OutputMode> {
    Seq::new(modes.len(), |i: int| output_mode(modes[i]))
}

/// Whether the mode at a place is a preferred one.
pub open spec fn is_preferred(modes: Seq<DrmMode>) -> spec_fn(int) -> bool {
    |i: int| modes[i].preferred
}

/// The mode to start with: the first preferred one, or else the first.
pub open spec fn initial_mode(modes: Seq<DrmMode>) -> Option<DrmMode> {
    match search::first_below(modes.len(), is_preferred(modes)) {
        Some(i) => Some(modes[i]),
        None => if modes.len() > 0 {
            Some(modes[0])
        } else {
            None
        },
    }
}

/// The modes that are not among `modes`.
pub open spec fn other_modes(modes: Seq<OutputMode>) -> spec_fn(OutputMode) -> bool {
    |m: OutputMode| !modes.contains(m)
}

/// What becomes of the modes of an output, and the state that it starts in.
pub struct ModePlan {
    /// The mode to prefer and to start with.
    pub preferred: OutputMode,
    /// The modes that there are.
    pub add: Vec<OutputMode>,
    /// The modes that are there no more.
    pub remove: Vec<OutputMode>,
    /// The scale to start with.
    pub scale: Scale,
    /// The transform to start with.
    pub transform: Transform,
    /// The place to start at.
    pub position: Point,
}

fn to_output_mode(mode: DrmMode) -> (r: OutputMode)
    requires
        is_regular(mode),
    ensures
        r == output_mode(mode),
{
    let refresh: u32 = drm_helpers::calculate_refresh_rate(mode.clock, mode.htotal, mode.vtotal);
    OutputMode {
        size: Size { w: mode.width as i32, h: mode.height as i32 },
        refresh: refresh as i32,
    }
}

fn choose_mode(modes: &Vec<DrmMode>) -> (r: Option<DrmMode>)
    ensures
        r == initial_mode(modes@),
{
    let ghost p = is_preferred(modes@);
    let mut i: usize = 0;
    while i < modes.len()
        invariant
            i <= modes@.len(),
            p == is_preferred(modes@),
            forall|j: int| 0 <= j < i ==> !(#[trigger] p(j)),
        decreases modes@.len() - i,
    {
        if modes[i].preferred {
            proof {
                search::lemma_is_first_below(modes@.len(), p, i as int);
            }
            return Some(modes[i]);
        }
        i = i + 1;
    }
    proof {
        search::lemma_none_below(modes@.len(), p);
    }
    if modes.len() > 0 {
        Some(modes[0])
    } else {
        None
    }
}

/// Whether the mode is among the modes.
pub fn has_mode(modes: &Vec<OutputMode>, mode: OutputMode) -> (r: bool)
    ensures
        r == modes@.contains(mode),
{
    let mut i: usize = 0;
    while i < modes.len()
        invariant
            i <= modes@.len(),
            forall|j: int| 0 <= j < i ==> modes@[j] != mode,
        decreases modes@.len() - i,
    {
        if modes[i] == mode {
            return true;
        }
        i = i + 1;
    }
    false
}

/// Plans the modes of an output, by the modes of its connector and those that the output has.
/// The output starts unscaled, upright and at the origin. `None`: the connector has no mode.
pub fn populate_modes(modes: &Vec<DrmMode>, current: &Vec<OutputMode>) -> (r: Option<ModePlan>)
    requires
        forall|i: int| 0 <= i < modes@.len() ==> is_regular(#[trigger] modes@[i]),
    ensures
        match r {
            Some(plan) => modes@.len() > 0 && plan.preferred == output_mode(
                initial_mode(modes@).unwrap(),
            ) && plan.add@ == output_modes(modes@) && plan.remove@ == current@.filter(
                other_modes(output_modes(modes@)),
            ) && plan.scale == Scale(256) && plan.transform == Transform::Normal && plan.position
                == (Point { x: 0, y: 0 }),
            None => modes@.len() == 0,
        },
{
    proof {
        search::lemma_first_below(modes@.len(), is_preferred(modes@));
    }
    let chosen = match choose_mode(modes) {
        Some(mode) => mode,
        None => {
            return None;
        },
    };
    let preferred = to_output_mode(chosen);
    let mut add: Vec<OutputMode> = Vec::new();
    let mut i: usize = 0;
    while i < modes.len()
        invariant
            i <= modes@.len(),
            forall|k: int| 0 <= k < modes@.len() ==> is_regular(#[trigger] modes@[k]),
            add@ == output_modes(modes@).take(i as int),
        decreases modes@.len() - i,
    {
        add.push(to_output_mode(modes[i]));
        proof {
            assert(output_modes(modes@).take(i + 1) =~= output_modes(modes@).take(i as int).push(
                output_mode(modes@[i as int]),
            ));
        }
        i = i + 1;
    }
    proof {
        assert(output_modes(modes@).take(i as int) =~= output_modes(modes@));
    }
    let ghost p = other_modes(add@);
    let mut remove: Vec<OutputMode> = Vec::new();
    let mut k: usize = 0;
    assert(current@.take(0).filter(p) =~= Seq::<OutputMode>::empty()) by {
        reveal(Seq::filter);
    }
    while k < current.len()
        invariant
            k <= current@.len(),
            p == other_modes(add@),
            remove@ == current@.take(k as int).filter(p),
        decreases current@.len() - k,
    {
        proof {
            reveal(Seq::filter);
            assert(current@.take(k + 1).drop_last() =~= current@.take(k as int));
        }
        if !has_mode(&add, current[k]) {
            remove.push(current[k]);
        }
        k = k + 1;
    }
    proof {
        assert(current@.take(k as int) =~= current@);
    }
    Some(
        ModePlan {
            preferred,
            add,
            remove,
            scale: Scale::identity(),
            transform: Transform::Normal,
            position: Point { x: 0, y: 0 },
        },
    )
}

/// Once the plan is carried out, the output has the connector's modes and no others.
pub proof fn law_modes_after_plan(modes: Seq<OutputMode>, current: Seq<OutputMode>, m: OutputMode)
    ensures
        (current + modes).contains(m) && !current.filter(other_modes(modes)).contains(m)
            <==> modes.contains(m),
{
    broadcast use vstd::seq_lib::group_filter_ensures;

    let p = other_modes(modes);
    let gone = current.filter(p);
    if modes.contains(m) {
        let k = choose|k: int| 0 <= k < modes.len() && modes[k] == m;
        assert((current + modes)[current.len() + k] == m);
        if gone.contains(m) {
            let i = choose|i: int| 0 <= i < gone.len() && gone[i] == m;
            assert(p(gone[i]));
        }
    } else if (current + modes).contains(m) {
        let k = choose|k: int| 0 <= k < (current + modes).len() && (current + modes)[k] == m;
        if k < current.len() {
            assert(current[k] == m);
            assert(p(current[k]));
            assert(gone.contains(current[k]));
        } else {
            assert(modes[k - current.len()] == m);
        }
    }
}

/// The next step for a connector on its way to becoming an output.
#[derive(Debug, Clone, Copy, PartialEq, Eq, Structural)]
pub enum ScanStage {
    /// Create the output and announce it.
    CreateOutput,
    /// Give the output its modes.
    PopulateModes,
    /// Create the surface, and its thread.
    CreateSurface,
    /// Share the rendering context with the surface.
    ShareContext,
    /// Get a renderer.
    GetRenderer,
    /// Create the compositor and hand it to the surface.
    CreateCompositor,
    /// Store the output.
    Store,
    /// Go on with the next connector.
    Skip,
    /// Give the scan up.
    Abort,
}

/// Where a connector starts. `connected` is `None` where the connector cannot be queried.
pub open spec fn first_stage(connected: Option<bool>, crtc: Option<u32>) -> ScanStage {
    if connected == Some(true) && crtc is Some {
        ScanStage::CreateOutput
    } else {
        ScanStage::Skip
    }
}

/// What follows a step. A step that fails ends the matter for this connector; only a context
/// that cannot be shared ends the scan.
pub open spec fn next_stage(stage: ScanStage, succeeded: bool, has_egl: bool) -> ScanStage {
    if !succeeded {
        match stage {
            ScanStage::ShareContext => ScanStage::Abort,
            ScanStage::Abort => ScanStage::Abort,
            _ => ScanStage::Skip,
        }
    } else {
        match stage {
            ScanStage::CreateOutput => ScanStage::PopulateModes,
            ScanStage::PopulateModes => ScanStage::CreateSurface,
            ScanStage::CreateSurface => if has_egl {
                ScanStage::ShareContext
            } else {
                ScanStage::GetRenderer
            },
            ScanStage::ShareContext => ScanStage::GetRenderer,
            ScanStage::GetRenderer => ScanStage::CreateCompositor,
            ScanStage::CreateCompositor => ScanStage::Store,
            ScanStage::Store => ScanStage::Skip,
            ScanStage::Skip => ScanStage::Skip,
            ScanStage::Abort => ScanStage::Abort,
        }
    }
}

/// Where a connector starts: with an output, if it is connected and has a CRTC.
pub fn begin_scan(connected: Option<bool>, crtc: Option<u32>) -> (r: ScanStage)
    ensures
        r == first_stage(connected, crtc),
{
    match connected {
        Some(true) => {
            if crtc.is_some() {
                ScanStage::CreateOutput
            } else {
                ScanStage::Skip
            }
        },
        _ => ScanStage::Skip,
    }
}

/// What to do about the rendering context.
#[derive(Debug, Clone, Copy, PartialEq, Eq, Structural)]
pub enum EglPlan {
    /// It is there and stays.
    Keep,
    /// Make it, add the device to the renderers, and tell the surfaces.
    Create,
    /// Tell the surfaces, drop it, and take the device from the renderers.
    Drop,
    /// It is not there and is not needed.
    Nothing,
}

/// What is known of a device.
pub struct Device {
    drm_node: u64,
    render_node: u64,
    has_egl: bool,
    outputs: Table<u64>,
    surfaces: Table<u32>,
    surface_manager: SurfaceManager,
}

/// What is known of a device.
pub ghost struct DeviceView {
    pub drm_node: u64,
    pub render_node: u64,
    pub has_egl: bool,
    pub outputs: Seq<(u32, u64)>,
    pub surfaces: Seq<(u32, u32)>,
    pub managed: Seq<(u32, SurfaceEntry)>,
}

impl View for Device {
    type V = DeviceView;

    closed spec fn view(&self) -> DeviceView {
        DeviceView {
            drm_node: self.drm_node,
            render_node: self.render_node,
            has_egl: self.has_egl,
            outputs: self.outputs@,
            surfaces: self.surfaces@,
            managed: self.surface_manager@,
        }
    }
}

impl DeviceView {
    /// Whether the device is used, by which device is the primary one.
    pub open spec fn in_use(self, primary: Option<u64>) -> bool {
        primary is None || primary == Some(self.drm_node)
    }

    /// What to do about the rendering context.
    pub open spec fn egl_plan(self, primary: Option<u64>) -> EglPlan {
        if self.in_use(primary) {
            if self.has_egl {
                EglPlan::Keep
            } else {
                EglPlan::Create
            }
        } else if self.has_egl {
            EglPlan::Drop
        } else {
            EglPlan::Nothing
        }
    }

    /// The device once an output is stored.
    pub open spec fn stored(self, conn: u32, crtc: u32, output: u64) -> DeviceView {
        DeviceView {
            outputs: table::with_entry(self.outputs, conn, output),
            surfaces: table::with_entry(self.surfaces, crtc, conn),
            ..self
        }
    }
}

/// The values of a table, in order.
pub open spec fn values(entries: Seq<(u32, u64)>) -> Seq<u64> {
    Seq::new(entries.len(), |i: int| entries[i].1)
}

impl Device {
    /// No connector has two outputs and no CRTC two connectors.
    #[verifier::type_invariant]
    closed spec fn valid(self) -> bool {
        table::keys_distinct(self.outputs@) && table::keys_distinct(self.surfaces@)
    }

    /// A device without outputs. `render_node` is what its rendering context names, where one
    /// could be made for a try and names one; else the device renders by itself.
    pub fn new(drm_node: u64, render_node: Option<u64>) -> (r: Device)
        ensures
            r@ == (DeviceView {
                drm_node,
                render_node: match render_node {
                    Some(node) => node,
                    None => drm_node,
                },
                has_egl: false,
                outputs: Seq::empty(),
                surfaces: Seq::empty(),
                managed: Seq::empty(),
            }),
    {
        let render: u64 = match render_node {
            Some(node) => node,
            None => drm_node,
        };
        Device {
            drm_node,
            render_node: render,
            has_egl: false,
            outputs: Table::new(),
            surfaces: Table::new(),
            surface_manager: SurfaceManager::new(),
        }
    }

    /// The node that the device renders with.
    pub fn render_node(&self) -> (r: u64)
        ensures
            r == self@.render_node,
    {
        self.render_node
    }

    /// Whether the device has a rendering context.
    pub fn has_egl(&self) -> (r: bool)
        ensures
            r == self@.has_egl,
    {
        self.has_egl
    }

    /// The CRTCs whose surfaces have to draw when the output changes.
    pub fn schedule_render(&self, output: u64) -> (r: Vec<u32>)
        ensures
            r@ == crate::backend::surface::crtcs_showing(self@.managed, output),
    {
        self.surface_manager.surfaces_for_output(output)
    }

    /// What to do about the rendering context; it is needed while no device is the primary
    /// one, or this one is.
    pub fn update_egl(&self, primary: Option<u64>) -> (r: EglPlan)
        ensures
            r == self@.egl_plan(primary),
    {
        let in_use = match primary {
            Some(node) => node == self.drm_node,
            None => true,
        };
        if in_use {
            if self.has_egl {
                EglPlan::Keep
            } else {
                EglPlan::Create
            }
        } else if self.has_egl {
            EglPlan::Drop
        } else {
            EglPlan::Nothing
        }
    }

    /// Takes note that the rendering context was made, or dropped.
    pub fn set_egl(&mut self, has_egl: bool)
        ensures
            final(self)@ == (DeviceView { has_egl, ..old(self)@ }),
    {
        proof {
            use_type_invariant(&*self);
        }
        self.has_egl = has_egl;
    }

    /// Whether clients are to be told of the formats for buffers: once the device has a
    /// rendering context, unless they were told before. `updated` is whether bringing the
    /// context up to date went well.
    pub fn announces_formats(&self, updated: bool, announced: bool) -> (r: bool)
        ensures
            r == (updated && self@.has_egl && !announced),
    {
        updated && self.has_egl && !announced
    }

    /// What follows a step of the scan.
    pub fn scan_outputs(&self, stage: ScanStage, succeeded: bool) -> (r: ScanStage)
        ensures
            r == next_stage(stage, succeeded, self@.has_egl),
    {
        if !succeeded {
            match stage {
                ScanStage::ShareContext => ScanStage::Abort,
                ScanStage::Abort => ScanStage::Abort,
                _ => ScanStage::Skip,
            }
        } else {
            match stage {
                ScanStage::CreateOutput => ScanStage::PopulateModes,
                ScanStage::PopulateModes => ScanStage::CreateSurface,
                ScanStage::CreateSurface => {
                    if self.has_egl {
                        ScanStage::ShareContext
                    } else {
                        ScanStage::GetRenderer
                    }
                },
                ScanStage::ShareContext => ScanStage::GetRenderer,
                ScanStage::GetRenderer => ScanStage::CreateCompositor,
                ScanStage::CreateCompositor => ScanStage::Store,
                ScanStage::Store => ScanStage::Skip,
                ScanStage::Skip => ScanStage::Skip,
                ScanStage::Abort => ScanStage::Abort,
            }
        }
    }

    /// Takes note of a surface that was created.
    pub fn surface_created(&mut self, conn: u32, crtc: u32, output: u64)
        ensures
            final(self)@ == (DeviceView {
                managed: table::with_entry(
                    old(self)@.managed,
                    crtc,
                    SurfaceEntry { output, connector: conn },
                ),
                ..old(self)@
            }),
    {
        proof {
            use_type_invariant(&*self);
        }
        let mut manager = SurfaceManager::new();
        std::mem::swap(&mut manager, &mut self.surface_manager);
        manager.create_surface(output, crtc, conn);
        self.surface_manager = manager;
    }

    /// Stores an output, under its connector, and the connector, under its CRTC.
    pub fn store_output(&mut self, conn: u32, crtc: u32, output: u64)
        ensures
            final(self)@ == old(self)@.stored(conn, crtc, output),
    {
        proof {
            use_type_invariant(&*self);
        }
        let mut outputs: Table<u64> = Table::new();
        let mut surfaces: Table<u32> = Table::new();
        std::mem::swap(&mut outputs, &mut self.outputs);
        std::mem::swap(&mut surfaces, &mut self.surfaces);
        outputs.insert(conn, output);
        surfaces.insert(crtc, conn);
        self.outputs = outputs;
        self.surfaces = surfaces;
    }

    /// The outputs of the device.
    pub fn outputs(&self) -> (r: Vec<u64>)
        ensures
            r@ == values(self@.outputs),
    {
        let mut list: Vec<u64> = Vec::new();
        let mut i: usize = 0;
        while i < self.outputs.len()
            invariant
                i <= self@.outputs.len(),
                list@ == values(self@.outputs).take(i as int),
            decreases self@.outputs.len() - i,
        {
            list.push(self.outputs.at(i).1);
            assert(list@ =~= values(self@.outputs).take(i + 1));
            i = i + 1;
        }
        assert(values(self@.outputs).take(i as int) =~= values(self@.outputs));
        list
    }
}

/// The stages that a connector goes through, by how each step ended.
pub open spec fn stage_after(start: ScanStage, steps: Seq<bool>, has_egl: bool) -> ScanStage
    decreases steps.len(),
{
    if steps.len() == 0 {
        start
    } else {
        next_stage(stage_after(start, steps.drop_last(), has_egl), steps.last(), has_egl)
    }
}

/// A connector becomes an output only if it is connected and has a CRTC, and no step on the
/// way fails: from a failed step on, nothing is stored.
pub proof fn law_stored_only_without_failure(
    connected: Option<bool>,
    crtc: Option<u32>,
    steps: Seq<bool>,
    has_egl: bool,
    k: int,
)
    requires
        stage_after(first_stage(connected, crtc), steps, has_egl) == ScanStage::Store,
        0 <= k < steps.len(),
    ensures
        connected == Some(true),
        crtc is Some,
        steps[k],
    decreases steps.len(),
{
    lemma_never_again(connected, crtc, steps, has_egl);
    assert(steps[k]);
}

proof fn lemma_never_again(
    connected: Option<bool>,
    crtc: Option<u32>,
    steps: Seq<bool>,
    has_egl: bool,
)
    ensures
        ({
            let s = stage_after(first_stage(connected, crtc), steps, has_egl);
            s != ScanStage::Skip && s != ScanStage::Abort ==> {
                &&& connected == Some(true)
                &&& crtc is Some
                &&& forall|k: int| 0 <= k < steps.len() ==> steps[k]
            }
        }),
    decreases steps.len(),
{
    if steps.len() > 0 {
        lemma_never_again(connected, crtc, steps.drop_last(), has_egl);
        let s = stage_after(first_stage(connected, crtc), steps, has_egl);
        if s != ScanStage::Skip && s != ScanStage::Abort {
            assert forall|k: int| 0 <= k < steps.len() implies steps[k] by {
                if k < steps.len() - 1 {
                    assert(steps.drop_last()[k] == steps[k]);
                }
            }
        }
    }
}

/// Every step on the way succeeds.
pub open spec fn all_well(has_egl: bool) -> Seq<bool> {
    Seq::new(
        if has_egl {
            6nat
        } else {
            5nat
        },
        |i: int| true,
    )
}

/// Where every step succeeds, a connected connector with a CRTC becomes an output: after five
/// steps, or six where a rendering context is shared.
pub proof fn law_stored_if_all_succeed(crtc: u32, has_egl: bool)
    ensures
        stage_after(first_stage(Some(true), Some(crtc)), all_well(has_egl), has_egl)
            == ScanStage::Store,
{
    let start = first_stage(Some(true), Some(crtc));
    let five = Seq::new(5, |i: int| true);
    assert(five.drop_last().drop_last().drop_last().drop_last().drop_last() =~= Seq::<
        bool,
    >::empty());
    reveal_with_fuel(stage_after, 7);
    if has_egl {
        let six = Seq::new(6, |i: int| true);
        assert(six.drop_last() =~= five);
    }
}

/// A device that is in use gets a context and keeps it; one that is not loses it.
pub proof fn law_egl_settles(d: DeviceView, primary: Option<u64>)
    ensures
        d.egl_plan(primary) == EglPlan::Create ==> (DeviceView { has_egl: true, ..d }).egl_plan(
            primary,
        ) == EglPlan::Keep,
        d.egl_plan(primary) == EglPlan::Drop ==> (DeviceView { has_egl: false, ..d }).egl_plan(
            primary,
        ) == EglPlan::Nothing,
{
}

/// An output starts with the first mode that is preferred, or the first of all if none is; without
/// modes it has none.
pub proof fn law_initial_mode(modes: Seq<DrmMode>, i: int)
    ensures
        0 <= i < modes.len() && modes[i].preferred && (forall|j: int|
            0 <= j < i ==> !(#[trigger] modes[j]).preferred) ==> initial_mode(modes) == Some(
            modes[i],
        ),
        modes.len() > 0 && (forall|j: int|
            0 <= j < modes.len() ==> !(#[trigger] modes[j]).preferred) ==> initial_mode(modes)
            == Some(modes[0]),
        modes.len() == 0 ==> initial_mode(modes) is None,
{
    let p = is_preferred(modes);
    if 0 <= i < modes.len() && modes[i].preferred && (forall|j: int|
        0 <= j < i ==> !(#[trigger] modes[j]).preferred) {
        assert(p(i));
        assert forall|j: int| 0 <= j < i implies !(#[trigger] p(j)) by {
            assert(!modes[j].preferred);
        }
        search::lemma_is_first_below(modes.len(), p, i);
    }
    if forall|j: int| 0 <= j < modes.len() ==> !(#[trigger] modes[j]).preferred {
        assert forall|j: int| 0 <= j < modes.len() implies !(#[trigger] p(j)) by {
            assert(!modes[j].preferred);
        }
        search::lemma_none_below(modes.len(), p);
    }
}

/// An output's mode has the size of the connector's mode.
pub proof fn law_mode_size(mode: DrmMode)
    ensures
        output_mode(mode).size.w == mode.width,
        output_mode(mode).size.h == mode.height,
{
}

/// The way of a connector to an output: only one that is connected and has a CRTC starts on it.
/// It is created, gets its modes and its surface, shares the rendering context where there is
/// one, gets a renderer and a compositor, and is stored. A step that fails ends it; if the
/// context cannot be shared, the whole scan ends.
pub proof fn law_scan_stages(connected: Option<bool>, crtc: Option<u32>, has_egl: bool, stage: ScanStage)
    ensures
        first_stage(connected, crtc) == ScanStage::CreateOutput <==> connected == Some(true)
            && crtc is Some,
        first_stage(connected, crtc) != ScanStage::CreateOutput ==> first_stage(connected, crtc)
            == ScanStage::Skip,
        next_stage(ScanStage::CreateOutput, true, has_egl) == ScanStage::PopulateModes,
        next_stage(ScanStage::PopulateModes, true, has_egl) == ScanStage::CreateSurface,
        has_egl ==> next_stage(ScanStage::CreateSurface, true, has_egl) == ScanStage::ShareContext,
        !has_egl ==> next_stage(ScanStage::CreateSurface, true, has_egl) == ScanStage::GetRenderer,
        next_stage(ScanStage::ShareContext, true, has_egl) == ScanStage::GetRenderer,
        next_stage(ScanStage::GetRenderer, true, has_egl) == ScanStage::CreateCompositor,
        next_stage(ScanStage::CreateCompositor, true, has_egl) == ScanStage::Store,
        next_stage(ScanStage::Store, true, has_egl) == ScanStage::Skip,
        next_stage(ScanStage::ShareContext, false, has_egl) == ScanStage::Abort,
        stage != ScanStage::ShareContext && stage != ScanStage::Abort ==> next_stage(
            stage,
            false,
            has_egl,
        ) == ScanStage::Skip,
{
}

/// A device has a rendering context exactly if it is the primary one, or if there is none: it is
/// made where it is missing and dropped where it is not needed.
pub proof fn law_egl_plan(d: DeviceView, primary: Option<u64>)
    ensures
        ({
            let needed = primary is None || primary.unwrap() == d.drm_node;
            &&& needed && d.has_egl ==> d.egl_plan(primary) == EglPlan::Keep
            &&& needed && !d.has_egl ==> d.egl_plan(primary) == EglPlan::Create
            &&& !needed && d.has_egl ==> d.egl_plan(primary) == EglPlan::Drop
            &&& !needed && !d.has_egl ==> d.egl_plan(primary) == EglPlan::Nothing
        }),
{
}

/// An output that is stored is found under its connector, and the connector under its CRTC; what
/// is stored under others stays.
pub proof fn law_stored(d: DeviceView, conn: u32, crtc: u32, output: u64, other: u32)
    requires
        table::keys_distinct(d.outputs),
        table::keys_distinct(d.surfaces),
    ensures
        table::filed(d.stored(conn, crtc, output).outputs, conn) == Some(output),
        table::filed(d.stored(conn, crtc, output).surfaces, crtc) == Some(conn),
        other != conn ==> table::filed(d.stored(conn, crtc, output).outputs, other) == table::filed(
            d.outputs,
            other,
        ),
        other != crtc ==> table::filed(d.stored(conn, crtc, output).surfaces, other)
            == table::filed(d.surfaces, other),
{
    table::law_insert_then_get(d.outputs, conn, output, other);
    table::law_insert_then_get(d.surfaces, crtc, conn, other);
}

} // verus!
