//! When frames are drawn: the scheduler of one output's surface, and the registry of
//! surfaces.
//!
//! The scheduler numbers its timers. The program starts and stops real timers by these
//! numbers and reports when one fires.

use vstd::prelude::*;

use crate::shell::model::ShellView;
use crate::shell::output::{Output, OutputView};
use crate::shell::Shell;
use crate::utils::geometry::{Point, Rectangle, Size};
use crate::utils::table;
use crate::utils::table::Table;
use crate::utils::text::same_text;

verus! {

/// When to let the refresh rate vary.
#[derive(Debug, Clone, Copy, PartialEq, Eq, Structural)]
pub enum AdaptiveSync {
    /// Never.
    Disabled,
    /// While a window is fullscreen.
    Enabled,
    /// Always.
    Force,
}

impl Default for AdaptiveSync {
    fn default() -> (r: AdaptiveSync)
        ensures
            r == AdaptiveSync::Disabled,
    {
        AdaptiveSync::Disabled
    }
}

/// The mode that a setting names, in lower case, capitalised or in upper case.
pub open spec fn named_sync(text: Seq<char>) -> Option<AdaptiveSync> {
    if text == "force"@ || text == "Force"@ || text == "FORCE"@ {
        Some(AdaptiveSync::Force)
    } else if text == "enabled"@ || text == "Enabled"@ || text == "ENABLED"@ {
        Some(AdaptiveSync::Enabled)
    } else if text == "disabled"@ || text == "Disabled"@ || text == "DISABLED"@ {
        Some(AdaptiveSync::Disabled)
    } else {
        None
    }
}

impl AdaptiveSync {
    /// The mode that a setting asks for; `Enabled`, where the setting is absent or names no
    /// mode.
    pub open spec fn spec_from_setting(setting: Option<Seq<char>>) -> AdaptiveSync {
        match setting {
            Some(text) => match named_sync(text) {
                Some(mode) => mode,
                None => AdaptiveSync::Enabled,
            },
            None => AdaptiveSync::Enabled,
        }
    }

    /// The mode that a setting asks for.
    pub fn from_setting(setting: Option<&str>) -> (r: AdaptiveSync)
        ensures
            r == AdaptiveSync::spec_from_setting(
                match setting {
                    Some(text) => Some(text@),
                    None => None,
                },
            ),
    {
        match setting {
            Some(text) => {
                if same_text(text, "force") || same_text(text, "Force") || same_text(text, "FORCE") {
                    AdaptiveSync::Force
                } else if same_text(text, "enabled") || same_text(text, "Enabled") || same_text(
                    text,
                    "ENABLED",
                ) {
                    AdaptiveSync::Enabled
                } else if same_text(text, "disabled") || same_text(text, "Disabled") || same_text(
                    text,
                    "DISABLED",
                ) {
                    AdaptiveSync::Disabled
                } else {
                    AdaptiveSync::Enabled
                }
            },
            None => AdaptiveSync::Enabled,
        }
    }

    /// Whether the refresh rate varies.
    pub open spec fn spec_active(self, has_fullscreen: bool) -> bool {
        self == AdaptiveSync::Force || self == AdaptiveSync::Enabled && has_fullscreen
    }

    /// Whether the refresh rate varies, by whether a window is fullscreen.
    pub fn active(self, has_fullscreen: bool) -> (r: bool)
        ensures
            r == self.spec_active(has_fullscreen),
    {
        match self {
            AdaptiveSync::Force => true,
            AdaptiveSync::Enabled => has_fullscreen,
            AdaptiveSync::Disabled => false,
        }
    }
}

/// What a hardware plane is for.
#[derive(Debug, Clone, Copy, PartialEq, Eq, Structural)]
pub enum PlaneType {
    Primary,
    Overlay,
    Cursor,
}

/// A thing to draw, on a hardware plane.
#[derive(Debug, Clone, Copy, PartialEq, Eq, Structural)]
pub struct PlaneAssignment {
    pub element_index: usize,
    pub plane_type: PlaneType,
}

/// What the surface waits for.
#[derive(Debug, Clone, Copy, PartialEq, Eq, Structural)]
pub enum QueueState {
    /// Nothing.
    Idle,
    /// A render timer.
    Queued(u64),
    /// The frame handed to the display; whether to draw again after that.
    WaitingForVBlank { redraw_needed: bool },
    /// A timer in place of a frame, as nothing was handed to the display.
    WaitingForEstimatedVBlank(u64),
    /// The same, with a render timer on top.
    WaitingForEstimatedVBlankAndQueued { estimated_vblank: u64, queued_render: u64 },
}

impl Default for QueueState {
    fn default() -> (r: QueueState)
        ensures
            r == QueueState::Idle,
    {
        QueueState::Idle
    }
}

/// What the program has to do for the scheduler.
#[derive(Debug, Clone, Copy, PartialEq, Eq, Structural)]
pub enum FrameAction {
    /// Start a timer that ends in a redraw.
    StartRender(u64),
    /// Start a timer that ends at the estimated end of the frame.
    StartEstimate { timer: u64, force: bool },
    /// Stop a timer.
    Cancel(u64),
    /// Tell clients that they may draw the next frame.
    SendFrameCallbacks,
    /// Report what was drawn to the main thread.
    ReportStates,
}

/// How drawing a frame ended.
#[derive(Debug, Clone, Copy, PartialEq, Eq, Structural)]
pub enum FrameOutcome {
    /// The frame was handed to the display.
    Queued,
    /// There was nothing to show.
    Empty,
    /// Drawing failed.
    Failed,
}

/// What the scheduler holds.
#[derive(Debug, Clone, Copy, PartialEq, Eq, Structural)]
pub struct SchedulerState {
    pub has_compositor: bool,
    pub state: QueueState,
    pub next_timer: u64,
    pub frame_count: u32,
    pub frame_callback_seq: u64,
    pub vrr_mode: AdaptiveSync,
}

/// A number one higher, starting over at the end.
pub open spec fn bumped(n: u64) -> u64 {
    if n == u64::MAX {
        0
    } else {
        (n + 1) as u64
    }
}

impl SchedulerState {
    /// A scheduler that draws nothing yet.
    pub open spec fn initial(vrr_mode: AdaptiveSync) -> SchedulerState {
        SchedulerState {
            has_compositor: false,
            state: QueueState::Idle,
            next_timer: 0,
            frame_count: 0,
            frame_callback_seq: 0,
            vrr_mode,
        }
    }

    /// Whether a request to draw starts a timer.
    pub open spec fn starts_render(self, force: bool) -> bool {
        self.has_compositor && match self.state {
            QueueState::WaitingForVBlank { .. } => false,
            QueueState::Idle => true,
            QueueState::WaitingForEstimatedVBlank(_) => true,
            QueueState::Queued(_) => force,
            QueueState::WaitingForEstimatedVBlankAndQueued { .. } => force,
        }
    }

    /// The scheduler after a request to draw, and what to do. While a frame is on its way
    /// the request is remembered; a request that is queued already is not queued again,
    /// unless forced.
    pub open spec fn queue_redraw(self, force: bool) -> (SchedulerState, Seq<FrameAction>) {
        if self.starts_render(force) {
            let timer = self.next_timer;
            let s = SchedulerState { next_timer: (timer + 1) as u64, ..self };
            let start = seq![FrameAction::StartRender(timer)];
            match self.state {
                QueueState::Queued(old) => (
                    SchedulerState { state: QueueState::Queued(timer), ..s },
                    start.push(FrameAction::Cancel(old)),
                ),
                QueueState::WaitingForEstimatedVBlank(estimated_vblank) => (
                    SchedulerState {
                        state: QueueState::WaitingForEstimatedVBlankAndQueued {
                            estimated_vblank,
                            queued_render: timer,
                        },
                        ..s
                    },
                    start,
                ),
                QueueState::WaitingForEstimatedVBlankAndQueued { estimated_vblank, queued_render } => (
                    SchedulerState {
                        state: QueueState::WaitingForEstimatedVBlankAndQueued {
                            estimated_vblank,
                            queued_render: timer,
                        },
                        ..s
                    },
                    start.push(FrameAction::Cancel(queued_render)),
                ),
                _ => (SchedulerState { state: QueueState::Queued(timer), ..s }, start),
            }
        } else if self.has_compositor && self.state is WaitingForVBlank {
            (
                SchedulerState {
                    state: QueueState::WaitingForVBlank { redraw_needed: true },
                    ..self
                },
                Seq::empty(),
            )
        } else {
            (self, Seq::empty())
        }
    }

    /// The scheduler once the display has shown a frame, and what to do.
    pub open spec fn vblank(self, animating: bool) -> (SchedulerState, Seq<FrameAction>) {
        if !self.has_compositor {
            (self, Seq::empty())
        } else {
            match self.state {
                QueueState::Idle => (self, Seq::empty()),
                QueueState::WaitingForEstimatedVBlankAndQueued { estimated_vblank, queued_render } => (
                    SchedulerState { state: QueueState::Queued(queued_render), ..self },
                    seq![FrameAction::Cancel(estimated_vblank)],
                ),
                QueueState::WaitingForEstimatedVBlank(timer) => {
                    let (t, more) = self.shown().again(animating);
                    (t, seq![FrameAction::Cancel(timer)] + more)
                },
                QueueState::WaitingForVBlank { redraw_needed } => self.shown().again(
                    redraw_needed || animating,
                ),
                QueueState::Queued(_) => self.shown().again(animating),
            }
        }
    }

    /// The scheduler with one frame more shown and nothing to wait for.
    pub open spec fn shown(self) -> SchedulerState {
        SchedulerState {
            state: QueueState::Idle,
            frame_count: if self.frame_count == u32::MAX {
                u32::MAX
            } else {
                (self.frame_count + 1) as u32
            },
            ..self
        }
    }

    /// The scheduler after a request to draw, if there is one.
    pub open spec fn again(self, wanted: bool) -> (SchedulerState, Seq<FrameAction>) {
        if wanted {
            self.queue_redraw(false)
        } else {
            (self, Seq::empty())
        }
    }

    /// Whether a timer in place of a frame can be started: a render timer has fired.
    pub open spec fn can_estimate(self) -> bool {
        self.state is Queued || self.state is WaitingForEstimatedVBlank
            || self.state is WaitingForEstimatedVBlankAndQueued
    }

    /// The scheduler after a frame with nothing to show: it waits for the time at which a
    /// frame would have been over, by a timer that is running or by a new one.
    pub open spec fn estimate(self, force: bool) -> (SchedulerState, Seq<FrameAction>) {
        match self.state {
            QueueState::WaitingForEstimatedVBlank(timer) => (self, Seq::empty()),
            QueueState::WaitingForEstimatedVBlankAndQueued { estimated_vblank, queued_render } => (
                SchedulerState {
                    state: QueueState::WaitingForEstimatedVBlank(estimated_vblank),
                    ..self
                },
                Seq::empty(),
            ),
            _ => (
                SchedulerState {
                    state: QueueState::WaitingForEstimatedVBlank(self.next_timer),
                    next_timer: (self.next_timer + 1) as u64,
                    ..self
                },
                seq![FrameAction::StartEstimate { timer: self.next_timer, force }],
            ),
        }
    }

    /// The scheduler when the timer in place of a frame fires, and what to do. A frame or a
    /// render timer that came in between makes the timer moot.
    pub open spec fn estimated_vblank(self, force: bool, animating: bool) -> (SchedulerState, Seq<FrameAction>) {
        match self.state {
            QueueState::WaitingForEstimatedVBlank(_) => {
                let s = SchedulerState {
                    state: QueueState::Idle,
                    frame_callback_seq: bumped(self.frame_callback_seq),
                    ..self
                };
                let (t, more) = s.again(force || animating);
                (
                    SchedulerState { frame_callback_seq: bumped(t.frame_callback_seq), ..t },
                    more.push(FrameAction::SendFrameCallbacks),
                )
            },
            QueueState::WaitingForEstimatedVBlankAndQueued { estimated_vblank, queued_render } => (
                SchedulerState { state: QueueState::Queued(queued_render), ..self },
                Seq::empty(),
            ),
            _ => (self, Seq::empty()),
        }
    }

    /// The scheduler after drawing, and what to do.
    pub open spec fn drawn(self, outcome: FrameOutcome) -> (SchedulerState, Seq<FrameAction>) {
        if !self.has_compositor {
            (self, Seq::empty())
        } else {
            match outcome {
                FrameOutcome::Queued => (
                    SchedulerState {
                        state: QueueState::WaitingForVBlank { redraw_needed: false },
                        frame_callback_seq: bumped(bumped(self.frame_callback_seq)),
                        ..self
                    },
                    seq![FrameAction::SendFrameCallbacks, FrameAction::ReportStates],
                ),
                FrameOutcome::Empty => self.estimate(false),
                FrameOutcome::Failed => self.queue_redraw(true),
            }
        }
    }

    /// The timers that are running, as far as the scheduler knows.
    pub open spec fn timers(self) -> Set<u64> {
        match self.state {
            QueueState::Queued(t) => set![t],
            QueueState::WaitingForEstimatedVBlank(t) => set![t],
            QueueState::WaitingForEstimatedVBlankAndQueued { estimated_vblank, queued_render } => set![
                estimated_vblank, queued_render
            ],
            _ => Set::empty(),
        }
    }

    /// Whether all running timers were numbered before, no two alike.
    pub open spec fn timers_valid(self) -> bool {
        &&& forall|t: u64| #[trigger] self.timers().contains(t) ==> t < self.next_timer
        &&& self.state matches QueueState::WaitingForEstimatedVBlankAndQueued {
            estimated_vblank,
            queued_render,
        } ==> estimated_vblank != queued_render
    }
}

/// What the redraw of an output does first.
#[derive(Debug, Clone, Copy, PartialEq, Eq, Structural)]
pub struct RedrawPlan {
    /// Whether windows have to be arranged.
    pub arrange: bool,
    /// Whether the pointer is on the output.
    pub cursor: bool,
    /// Whether the refresh rate varies.
    pub vrr: bool,
}

/// What the redraw of an output does first.
pub open spec fn redraw_plan(s: ShellView, mode: AdaptiveSync, output: OutputView, cursor: Point) -> RedrawPlan {
    RedrawPlan {
        arrange: s.active_on(output.name) matches Some(i) && s.workspaces[i].needs_arrange,
        cursor: Rectangle {
            loc: output.position.0,
            size: match output.mode {
                Some(size) => size,
                None => Size { w: 0, h: 0 },
            },
        }.spec_contains(cursor),
        vrr: mode.spec_active(s.fullscreen_on(output.name) is Some),
    }
}

/// Schedules the frames of one surface.
#[derive(Debug)]
pub struct FrameScheduler {
    inner: SchedulerState,
}

impl View for FrameScheduler {
    type V = SchedulerState;

    closed spec fn view(&self) -> SchedulerState {
        self.inner
    }
}

impl FrameScheduler {
    /// A scheduler that draws nothing yet.
    pub fn new(vrr_mode: AdaptiveSync) -> (r: FrameScheduler)
        ensures
            r@ == SchedulerState::initial(vrr_mode),
    {
        FrameScheduler {
            inner: SchedulerState {
                has_compositor: false,
                state: QueueState::Idle,
                next_timer: 0,
                frame_count: 0,
                frame_callback_seq: 0,
                vrr_mode,
            },
        }
    }

    /// What the surface waits for.
    pub fn state(&self) -> (r: QueueState)
        ensures
            r == self@.state,
    {
        self.inner.state
    }

    /// How many frames were shown.
    pub fn frame_count(&self) -> (r: u32)
        ensures
            r == self@.frame_count,
    {
        self.inner.frame_count
    }

    /// The number of the last frame callback.
    pub fn frame_callback_seq(&self) -> (r: u64)
        ensures
            r == self@.frame_callback_seq,
    {
        self.inner.frame_callback_seq
    }

    /// Changes when the refresh rate varies.
    pub fn use_adaptive_sync(&mut self, vrr_mode: AdaptiveSync)
        ensures
            final(self)@ == (SchedulerState { vrr_mode, ..old(self)@ }),
    {
        self.inner.vrr_mode = vrr_mode;
    }

    /// Starts drawing to a display.
    pub fn resume(&mut self) -> (r: Vec<FrameAction>)
        requires
            old(self)@.next_timer < u64::MAX,
        ensures
            ({
                let (s, actions) = SchedulerState {
                    has_compositor: true,
                    ..old(self)@
                }.queue_redraw(false);
                final(self)@ == s && r@ == actions
            }),
    {
        self.inner.has_compositor = true;
        self.queue_redraw()
    }

    /// Asks for a redraw.
    pub fn queue_redraw(&mut self) -> (r: Vec<FrameAction>)
        requires
            old(self)@.next_timer < u64::MAX,
        ensures
            final(self)@ == old(self)@.queue_redraw(false).0,
            r@ == old(self)@.queue_redraw(false).1,
    {
        self.queue_redraw_force(false)
    }

    /// Asks for a redraw. Force starts the render timer anew if it is running.
    pub fn queue_redraw_force(&mut self, force: bool) -> (r: Vec<FrameAction>)
        requires
            old(self)@.next_timer < u64::MAX,
        ensures
            final(self)@ == old(self)@.queue_redraw(force).0,
            r@ == old(self)@.queue_redraw(force).1,
    {
        let mut actions: Vec<FrameAction> = Vec::new();
        assert(actions@ =~= Seq::<FrameAction>::empty());
        if !self.inner.has_compositor {
            return actions;
        }
        let timer: u64 = self.inner.next_timer;
        match self.inner.state {
            QueueState::WaitingForVBlank { .. } => {
                self.inner.state = QueueState::WaitingForVBlank { redraw_needed: true };
            },
            QueueState::Idle => {
                self.inner.next_timer = timer + 1;
                actions.push(FrameAction::StartRender(timer));
                self.inner.state = QueueState::Queued(timer);
            },
            QueueState::WaitingForEstimatedVBlank(estimated_vblank) => {
                self.inner.next_timer = timer + 1;
                actions.push(FrameAction::StartRender(timer));
                self.inner.state = QueueState::WaitingForEstimatedVBlankAndQueued {
                    estimated_vblank,
                    queued_render: timer,
                };
            },
            QueueState::Queued(old_timer) => {
                if force {
                    self.inner.next_timer = timer + 1;
                    actions.push(FrameAction::StartRender(timer));
                    actions.push(FrameAction::Cancel(old_timer));
                    self.inner.state = QueueState::Queued(timer);
                }
            },
            QueueState::WaitingForEstimatedVBlankAndQueued { estimated_vblank, queued_render } => {
                if force {
                    self.inner.next_timer = timer + 1;
                    actions.push(FrameAction::StartRender(timer));
                    actions.push(FrameAction::Cancel(queued_render));
                    self.inner.state = QueueState::WaitingForEstimatedVBlankAndQueued {
                        estimated_vblank,
                        queued_render: timer,
                    };
                }
            },
        }
        assert(actions@ =~= old(self)@.queue_redraw(force).1);
        actions
    }

    /// Takes note that the display has shown a frame.
    pub fn on_vblank(&mut self, animating: bool) -> (r: Vec<FrameAction>)
        requires
            old(self)@.next_timer < u64::MAX,
        ensures
            final(self)@ == old(self)@.vblank(animating).0,
            r@ == old(self)@.vblank(animating).1,
    {
        let mut actions: Vec<FrameAction> = Vec::new();
        assert(actions@ =~= Seq::<FrameAction>::empty());
        if !self.inner.has_compositor {
            return actions;
        }
        let redraw_needed = match self.inner.state {
            QueueState::Idle => {
                return actions;
            },
            QueueState::WaitingForVBlank { redraw_needed } => redraw_needed,
            QueueState::WaitingForEstimatedVBlank(timer) => {
                actions.push(FrameAction::Cancel(timer));
                false
            },
            QueueState::WaitingForEstimatedVBlankAndQueued { estimated_vblank, queued_render } => {
                actions.push(FrameAction::Cancel(estimated_vblank));
                self.inner.state = QueueState::Queued(queued_render);
                assert(actions@ =~= old(self)@.vblank(animating).1);
                return actions;
            },
            QueueState::Queued(_) => false,
        };
        self.inner.state = QueueState::Idle;
        self.inner.frame_count = self.inner.frame_count.saturating_add(1);
        if redraw_needed || animating {
            let mut more = self.queue_redraw();
            actions.append(&mut more);
        }
        assert(actions@ =~= old(self)@.vblank(animating).1);
        actions
    }

    /// Takes note of how drawing ended, and does the rest.
    pub fn frame_drawn(&mut self, outcome: FrameOutcome) -> (r: Vec<FrameAction>)
        requires
            old(self)@.next_timer < u64::MAX,
            old(self)@.has_compositor && outcome == FrameOutcome::Empty ==> old(
                self,
            )@.can_estimate(),
        ensures
            final(self)@ == old(self)@.drawn(outcome).0,
            r@ == old(self)@.drawn(outcome).1,
    {
        let mut actions: Vec<FrameAction> = Vec::new();
        assert(actions@ =~= Seq::<FrameAction>::empty());
        if !self.inner.has_compositor {
            return actions;
        }
        match outcome {
            FrameOutcome::Queued => {
                self.inner.state = QueueState::WaitingForVBlank { redraw_needed: false };
                self.count_callback();
                self.count_callback();
                actions.push(FrameAction::SendFrameCallbacks);
                actions.push(FrameAction::ReportStates);
                assert(actions@ =~= old(self)@.drawn(outcome).1);
                actions
            },
            FrameOutcome::Empty => self.queue_estimated_vblank(false),
            FrameOutcome::Failed => self.queue_redraw_force(true),
        }
    }

    fn count_callback(&mut self)
        ensures
            final(self)@ == (SchedulerState {
                frame_callback_seq: bumped(old(self)@.frame_callback_seq),
                ..old(self)@
            }),
    {
        self.inner.frame_callback_seq = if self.inner.frame_callback_seq == u64::MAX {
            0
        } else {
            self.inner.frame_callback_seq + 1
        };
    }

    /// Whether there is a number left for another timer.
    pub fn has_next_timer(&self) -> (r: bool)
        ensures
            r == (self@.next_timer < u64::MAX),
    {
        self.inner.next_timer < u64::MAX
    }

    /// Whether a timer in place of a frame can be started.
    pub fn can_estimate(&self) -> (r: bool)
        ensures
            r == self@.can_estimate(),
    {
        match self.inner.state {
            QueueState::Idle => false,
            QueueState::WaitingForVBlank { .. } => false,
            _ => true,
        }
    }

    /// Waits for the time at which a frame would have been over.
    pub fn queue_estimated_vblank(&mut self, force: bool) -> (r: Vec<FrameAction>)
        requires
            old(self)@.next_timer < u64::MAX,
            old(self)@.can_estimate(),
        ensures
            final(self)@ == old(self)@.estimate(force).0,
            r@ == old(self)@.estimate(force).1,
    {
        let mut actions: Vec<FrameAction> = Vec::new();
        match self.inner.state {
            QueueState::WaitingForEstimatedVBlank(_) => {},
            QueueState::WaitingForEstimatedVBlankAndQueued { estimated_vblank, .. } => {
                self.inner.state = QueueState::WaitingForEstimatedVBlank(estimated_vblank);
            },
            _ => {
                let timer: u64 = self.inner.next_timer;
                self.inner.next_timer = timer + 1;
                self.inner.state = QueueState::WaitingForEstimatedVBlank(timer);
                actions.push(FrameAction::StartEstimate { timer, force });
            },
        }
        assert(actions@ =~= old(self)@.estimate(force).1);
        actions
    }

    /// Takes note that the timer in place of a frame has fired.
    pub fn on_estimated_vblank(&mut self, force: bool, animating: bool) -> (r: Vec<FrameAction>)
        requires
            old(self)@.next_timer < u64::MAX,
        ensures
            final(self)@ == old(self)@.estimated_vblank(force, animating).0,
            r@ == old(self)@.estimated_vblank(force, animating).1,
    {
        let mut actions: Vec<FrameAction> = Vec::new();
        match self.inner.state {
            QueueState::WaitingForEstimatedVBlank(_) => {
                self.inner.state = QueueState::Idle;
                self.count_callback();
                if force || animating {
                    actions = self.queue_redraw();
                }
                self.count_callback();
                actions.push(FrameAction::SendFrameCallbacks);
            },
            QueueState::WaitingForEstimatedVBlankAndQueued { queued_render, .. } => {
                self.inner.state = QueueState::Queued(queued_render);
            },
            _ => {},
        }
        assert(actions@ =~= old(self)@.estimated_vblank(force, animating).1);
        actions
    }

    /// Decides what a redraw of the output does first; nothing, without a display. `cursor`
    /// is the pointer's place, rounded to the nearest pixel.
    pub fn plan_redraw(&self, shell: &Shell, output: &Output, cursor: Point) -> (r: Option<RedrawPlan>)
        requires
            shell.wf(),
        ensures
            r == (if self@.has_compositor {
                Some(redraw_plan(shell@, self@.vrr_mode, output@, cursor))
            } else {
                None
            }),
    {
        if !self.inner.has_compositor {
            return None;
        }
        let name = output.name.as_str();
        let arrange = shell.active_needs_arrange(name);
        let size = match output.mode {
            Some(size) => size,
            None => Size { w: 0, h: 0 },
        };
        let area = Rectangle { loc: output.position.as_point(), size };
        let vrr = self.inner.vrr_mode.active(shell.get_fullscreen(name).is_some());
        Some(RedrawPlan { arrange, cursor: area.contains(cursor), vrr })
    }
}

/// What the main thread tells a surface's thread.
#[derive(Debug, Clone, Copy, PartialEq, Eq, Structural)]
pub enum ThreadCommand {
    /// A display to draw to is there.
    Resume,
    /// A device to draw with is there.
    NodeAdded(u64),
    /// A device to draw with is gone.
    NodeRemoved(u64),
    /// Something has changed.
    ScheduleRender,
    /// The display has shown a frame.
    VBlank,
    /// Whether the refresh rate can vary is asked for.
    AdaptiveSyncAvailable,
    /// When the refresh rate varies.
    UseAdaptiveSync(AdaptiveSync),
    /// What was drawn; this is for the main thread.
    RenderStates,
    /// The surface is gone.
    End,
}

/// What a surface's thread does besides keeping its schedule.
#[derive(Debug, Clone, Copy, PartialEq, Eq, Structural)]
pub enum ThreadReaction {
    /// Nothing.
    Nothing,
    /// Make a renderer for the device and add it.
    AddNode(u64),
    /// Forget the device's renderer.
    RemoveNode(u64),
    /// Answer whether the refresh rate can vary.
    AnswerAdaptiveSync,
    /// Answer that there is no display.
    AnswerInactive,
    /// End the thread.
    Stop,
}

/// The scheduler after a command, and what to do for it.
pub open spec fn commanded(
    s: SchedulerState,
    command: ThreadCommand,
    animating: bool,
) -> (SchedulerState, Seq<FrameAction>) {
    match command {
        ThreadCommand::Resume => SchedulerState { has_compositor: true, ..s }.queue_redraw(false),
        ThreadCommand::ScheduleRender => s.queue_redraw(false),
        ThreadCommand::VBlank => s.vblank(animating),
        ThreadCommand::UseAdaptiveSync(vrr_mode) => (
            SchedulerState { vrr_mode, ..s },
            Seq::empty(),
        ),
        _ => (s, Seq::empty()),
    }
}

/// What the thread does besides.
pub open spec fn reaction(s: SchedulerState, command: ThreadCommand) -> ThreadReaction {
    match command {
        ThreadCommand::NodeAdded(node) => ThreadReaction::AddNode(node),
        ThreadCommand::NodeRemoved(node) => ThreadReaction::RemoveNode(node),
        ThreadCommand::AdaptiveSyncAvailable => if s.has_compositor {
            ThreadReaction::AnswerAdaptiveSync
        } else {
            ThreadReaction::AnswerInactive
        },
        ThreadCommand::End => ThreadReaction::Stop,
        _ => ThreadReaction::Nothing,
    }
}

impl FrameScheduler {
    /// Handles a command of the main thread.
    pub fn handle_command(&mut self, command: ThreadCommand, animating: bool) -> (r: (
        Vec<FrameAction>,
        ThreadReaction,
    ))
        requires
            old(self)@.next_timer < u64::MAX,
        ensures
            final(self)@ == commanded(old(self)@, command, animating).0,
            r.0@ == commanded(old(self)@, command, animating).1,
            r.1 == reaction(old(self)@, command),
    {
        let none: Vec<FrameAction> = Vec::new();
        assert(none@ =~= Seq::<FrameAction>::empty());
        match command {
            ThreadCommand::Resume => (self.resume(), ThreadReaction::Nothing),
            ThreadCommand::ScheduleRender => (self.queue_redraw(), ThreadReaction::Nothing),
            ThreadCommand::VBlank => (self.on_vblank(animating), ThreadReaction::Nothing),
            ThreadCommand::UseAdaptiveSync(vrr_mode) => {
                self.use_adaptive_sync(vrr_mode);
                (none, ThreadReaction::Nothing)
            },
            ThreadCommand::NodeAdded(node) => (none, ThreadReaction::AddNode(node)),
            ThreadCommand::NodeRemoved(node) => (none, ThreadReaction::RemoveNode(node)),
            ThreadCommand::AdaptiveSyncAvailable => (
                none,
                if self.inner.has_compositor {
                    ThreadReaction::AnswerAdaptiveSync
                } else {
                    ThreadReaction::AnswerInactive
                },
            ),
            ThreadCommand::RenderStates => (none, ThreadReaction::Nothing),
            ThreadCommand::End => (none, ThreadReaction::Stop),
        }
    }

    /// Whether frames are drawn straight to the display: always.
    pub fn can_use_direct_render(&self) -> (r: bool)
        ensures
            r == direct_render(),
    {
        true
    }

    /// The hardware planes that things to draw are put on: none, everything is composed.
    pub fn assign_planes(&self, element_count: usize) -> (r: Vec<PlaneAssignment>)
        ensures
            r@ == Seq::<PlaneAssignment>::empty(),
    {
        Vec::new()
    }

    /// Whether a fullscreen buffer is shown without composing: never.
    pub fn can_direct_scanout(&self, element_count: usize) -> (r: bool)
        ensures
            !r,
    {
        false
    }
}

/// A step of drawing a frame.
#[derive(Debug, Clone, Copy, PartialEq, Eq, Structural)]
pub enum RedrawStep {
    /// Nothing is drawn.
    Skip,
    /// Get a renderer that draws with the one device for the other.
    GetRenderer { render: u64, target: u64 },
    /// Draw to memory first.
    DrawOffscreen,
    /// Draw the frame.
    RenderFrame,
    /// Hand the frame to the display; with it, whether clients hear when it is shown.
    QueueFrame { feedback: bool },
    /// Drawing is over.
    End(FrameOutcome),
}

/// How a step of drawing a frame went.
#[derive(Debug, Clone, Copy, PartialEq, Eq, Structural)]
pub enum StepReport {
    Succeeded,
    /// It went well, and nothing on the screen has changed.
    Empty,
    Failed,
}

/// Whether frames are drawn straight to the display.
pub open spec fn direct_render() -> bool {
    true
}

/// The first step of drawing a frame: none, without a display, nor where a frame is drawn to
/// memory first and there is no memory for it.
pub open spec fn first_step(s: SchedulerState, target: u64, has_postprocess: bool) -> RedrawStep {
    if s.has_compositor && (direct_render() || has_postprocess) {
        RedrawStep::GetRenderer { render: target, target }
    } else {
        RedrawStep::Skip
    }
}

/// The step that follows a step.
pub open spec fn step_after(step: RedrawStep, report: StepReport) -> RedrawStep {
    match step {
        RedrawStep::Skip => step,
        RedrawStep::End(_) => step,
        _ => if report == StepReport::Failed {
            RedrawStep::End(FrameOutcome::Failed)
        } else {
            match step {
                RedrawStep::GetRenderer { .. } => if direct_render() {
                    RedrawStep::RenderFrame
                } else {
                    RedrawStep::DrawOffscreen
                },
                RedrawStep::DrawOffscreen => RedrawStep::RenderFrame,
                RedrawStep::RenderFrame => RedrawStep::QueueFrame {
                    feedback: report == StepReport::Succeeded,
                },
                _ => if report == StepReport::Empty {
                    RedrawStep::End(FrameOutcome::Empty)
                } else {
                    RedrawStep::End(FrameOutcome::Queued)
                },
            }
        },
    }
}

/// A thing to draw, by its place in its own list.
#[derive(Debug, Clone, Copy, PartialEq, Eq, Structural)]
pub enum DrawItem {
    /// A part of the pointer.
    Cursor(usize),
    /// A part of the scene.
    Scene(usize),
}

/// What is drawn, front to back: the pointer, which nothing covers, and then the scene.
pub open spec fn draw_order(cursor: nat, scene: nat) -> Seq<DrawItem> {
    Seq::new(cursor, |i: int| DrawItem::Cursor(i as usize)) + Seq::new(
        scene,
        |i: int| DrawItem::Scene(i as usize),
    )
}

/// Puts the parts of the pointer before those of the scene.
pub fn draw_list(cursor: usize, scene: usize) -> (r: Vec<DrawItem>)
    ensures
        r@ == draw_order(cursor as nat, scene as nat),
{
    let mut r: Vec<DrawItem> = Vec::new();
    for i in 0..cursor
        invariant
            r@ == Seq::new(i as nat, |k: int| DrawItem::Cursor(k as usize)),
    {
        r.push(DrawItem::Cursor(i));
    }
    for i in 0..scene
        invariant
            r@ == draw_order(cursor as nat, i as nat),
    {
        r.push(DrawItem::Scene(i));
    }
    r
}

impl FrameScheduler {
    /// The first step of drawing a frame for a device. `has_postprocess` tells whether there
    /// is memory to draw to first.
    pub fn begin_redraw(&self, target: u64, has_postprocess: bool) -> (r: RedrawStep)
        ensures
            r == first_step(self@, target, has_postprocess),
    {
        if !self.inner.has_compositor || (!self.can_use_direct_render() && !has_postprocess) {
            RedrawStep::Skip
        } else {
            RedrawStep::GetRenderer { render: target, target }
        }
    }

    /// The step that follows a step, by how that went. What `End` holds goes to
    /// `frame_drawn`.
    pub fn next_step(&self, step: RedrawStep, report: StepReport) -> (r: RedrawStep)
        ensures
            r == step_after(step, report),
    {
        let failed = match report {
            StepReport::Failed => true,
            _ => false,
        };
        match step {
            RedrawStep::Skip => step,
            RedrawStep::End(_) => step,
            _ if failed => RedrawStep::End(FrameOutcome::Failed),
            RedrawStep::GetRenderer { .. } => {
                if self.can_use_direct_render() {
                    RedrawStep::RenderFrame
                } else {
                    RedrawStep::DrawOffscreen
                }
            },
            RedrawStep::DrawOffscreen => RedrawStep::RenderFrame,
            RedrawStep::RenderFrame => RedrawStep::QueueFrame {
                feedback: match report {
                    StepReport::Succeeded => true,
                    _ => false,
                },
            },
            RedrawStep::QueueFrame { .. } => match report {
                StepReport::Empty => RedrawStep::End(FrameOutcome::Empty),
                _ => RedrawStep::End(FrameOutcome::Queued),
            },
        }
    }
}

/// Drawing a frame comes to an end, however its steps go: it takes three of them.
pub proof fn law_redraw_ends(
    s: SchedulerState,
    target: u64,
    has_postprocess: bool,
    a: StepReport,
    b: StepReport,
    c: StepReport,
)
    requires
        s.has_compositor,
    ensures
        step_after(step_after(step_after(first_step(s, target, has_postprocess), a), b), c) is End,
{
}

/// A frame is handed to the display exactly if no step fails and the display takes it.
pub proof fn law_queued_iff_all_succeed(
    s: SchedulerState,
    target: u64,
    has_postprocess: bool,
    a: StepReport,
    b: StepReport,
    c: StepReport,
)
    requires
        s.has_compositor,
    ensures
        step_after(step_after(step_after(first_step(s, target, has_postprocess), a), b), c)
            == RedrawStep::End(FrameOutcome::Queued) <==> a != StepReport::Failed && b
            != StepReport::Failed && c == StepReport::Succeeded,
{
}

/// What is known of a surface.
#[derive(Debug, Clone, Copy, PartialEq, Eq, Structural)]
pub struct SurfaceEntry {
    pub output: u64,
    pub connector: u32,
}

/// The CRTCs whose surfaces show the output.
pub open spec fn crtcs_showing(entries: Seq<(u32, SurfaceEntry)>, output: u64) -> Seq<u32>
    decreases entries.len(),
{
    if entries.len() == 0 {
        Seq::empty()
    } else {
        let before = crtcs_showing(entries.drop_last(), output);
        if entries.last().1.output == output {
            before.push(entries.last().0)
        } else {
            before
        }
    }
}

/// The surfaces of a device, by CRTC.
pub struct SurfaceManager {
    surfaces: Table<SurfaceEntry>,
}

impl View for SurfaceManager {
    type V = Seq<(u32, SurfaceEntry)>;

    closed spec fn view(&self) -> Seq<(u32, SurfaceEntry)> {
        self.surfaces@
    }
}

impl SurfaceManager {
    /// No CRTC has two surfaces.
    #[verifier::type_invariant]
    closed spec fn valid(self) -> bool {
        table::keys_distinct(self.surfaces@)
    }

    /// A device without surfaces.
    pub fn new() -> (r: SurfaceManager)
        ensures
            r@ == Seq::<(u32, SurfaceEntry)>::empty(),
            table::keys_distinct(r@),
    {
        SurfaceManager { surfaces: Table::new() }
    }

    /// Takes note of the surface of an output, in place of the one that its CRTC had.
    pub fn create_surface(&mut self, output: u64, crtc: u32, connector: u32)
        ensures
            final(self)@ == table::with_entry(old(self)@, crtc, SurfaceEntry { output, connector }),
            table::keys_distinct(final(self)@),
    {
        proof {
            use_type_invariant(&*self);
        }
        let mut surfaces: Table<SurfaceEntry> = Table::new();
        std::mem::swap(&mut surfaces, &mut self.surfaces);
        surfaces.insert(crtc, SurfaceEntry { output, connector });
        self.surfaces = surfaces;
    }

    /// The surface of a CRTC.
    pub fn get(&self, crtc: u32) -> (r: Option<SurfaceEntry>)
        ensures
            r == table::filed(self@, crtc),
    {
        self.surfaces.get(crtc)
    }

    /// Takes out the surface of a CRTC.
    pub fn remove(&mut self, crtc: u32) -> (r: Option<SurfaceEntry>)
        ensures
            r == table::filed(old(self)@, crtc),
            final(self)@ == table::without_entry(old(self)@, crtc),
            table::keys_distinct(final(self)@),
    {
        proof {
            use_type_invariant(&*self);
        }
        let mut surfaces: Table<SurfaceEntry> = Table::new();
        std::mem::swap(&mut surfaces, &mut self.surfaces);
        let r = surfaces.remove(crtc);
        self.surfaces = surfaces;
        r
    }

    /// The CRTCs whose surfaces show the output.
    pub fn surfaces_for_output(&self, output: u64) -> (r: Vec<u32>)
        ensures
            r@ == crtcs_showing(self@, output),
    {
        let mut crtcs: Vec<u32> = Vec::new();
        let mut i: usize = 0;
        assert(self@.take(0) =~= Seq::<(u32, SurfaceEntry)>::empty());
        while i < self.surfaces.len()
            invariant
                i <= self@.len(),
                crtcs@ == crtcs_showing(self@.take(i as int), output),
            decreases self@.len() - i,
        {
            let entry = self.surfaces.at(i);
            proof {
                assert(self@.take(i + 1).drop_last() =~= self@.take(i as int));
            }
            if entry.1.output == output {
                crtcs.push(entry.0);
            }
            i = i + 1;
        }
        assert(self@.take(i as int) =~= self@);
        crtcs
    }

    /// Whether a frame shown on the CRTC is reported to a surface: where there is one.
    pub fn on_vblank(&self, crtc: u32) -> (r: bool)
        ensures
            r == table::filed(self@, crtc) is Some,
    {
        self.surfaces.get(crtc).is_some()
    }

    /// The CRTCs whose surfaces learn that a device comes or goes: all of them.
    pub fn update_surface_nodes(&self) -> (r: Vec<u32>)
        ensures
            r@ == Seq::new(self@.len(), |i: int| self@[i].0),
    {
        let mut crtcs: Vec<u32> = Vec::new();
        let mut i: usize = 0;
        while i < self.surfaces.len()
            invariant
                i <= self@.len(),
                crtcs@ == Seq::new(i as nat, |k: int| self@[k].0),
            decreases self@.len() - i,
        {
            crtcs.push(self.surfaces.at(i).0);
            assert(crtcs@ =~= Seq::new((i + 1) as nat, |k: int| self@[k].0));
            i = i + 1;
        }
        crtcs
    }
}

/// How long to wait for the estimated end of a frame, in nanoseconds: until the time it is
/// expected at, or one refresh interval, if that has passed.
pub fn estimate_delay(target: u64, now: u64, refresh_interval: u64) -> (r: u64)
    ensures
        r == (if target > now {
            (target - now) as u64
        } else {
            refresh_interval
        }),
{
    let left: u64 = target.saturating_sub(now);
    if left == 0 {
        refresh_interval
    } else {
        left
    }
}

/// Asking for a redraw twice does what asking once does.
pub proof fn law_queue_idempotent(s: SchedulerState)
    ensures
        s.queue_redraw(false).0.queue_redraw(false) == (
            s.queue_redraw(false).0,
            Seq::<FrameAction>::empty(),
        ),
{
}

/// A redraw that is asked for while a frame is on its way is started once the frame is
/// shown.
pub proof fn law_redraw_not_lost(s: SchedulerState, animating: bool)
    requires
        s.has_compositor,
        s.state is WaitingForVBlank,
    ensures
        ({
            let (t, actions) = s.queue_redraw(false).0.vblank(animating);
            &&& t.state == QueueState::Queued(s.next_timer)
            &&& actions == seq![FrameAction::StartRender(s.next_timer)]
        }),
{
}

/// The timers that a list of actions starts.
pub open spec fn started(actions: Seq<FrameAction>, t: u64) -> bool {
    actions.contains(FrameAction::StartRender(t)) || actions.contains(
        FrameAction::StartEstimate { timer: t, force: false },
    ) || actions.contains(FrameAction::StartEstimate { timer: t, force: true })
}

/// Whether the scheduler keeps track of its timers over a step: those that run afterwards
/// ran before or were started, and were not stopped; and no other was left running.
pub open spec fn tracks_timers(s: SchedulerState, step: (SchedulerState, Seq<FrameAction>)) -> bool {
    &&& step.0.timers_valid()
    &&& forall|t: u64|
        #[trigger] step.0.timers().contains(t) <==> (s.timers().contains(t) || started(step.1, t))
            && !step.1.contains(FrameAction::Cancel(t))
}

/// A request to draw loses track of no timer.
pub proof fn law_queue_tracks_timers(s: SchedulerState, force: bool)
    requires
        s.timers_valid(),
        s.next_timer < u64::MAX,
    ensures
        tracks_timers(s, s.queue_redraw(force)),
{
    let (t, actions) = s.queue_redraw(force);
    let timer = s.next_timer;
    assert(!s.timers().contains(timer));
    if s.starts_render(force) {
        assert(actions[0] == FrameAction::StartRender(timer));
        if actions.len() > 1 {
            assert(actions[1] is Cancel);
        }
        assert forall|x: u64|
            #[trigger] t.timers().contains(x) <==> (s.timers().contains(x) || started(actions, x))
                && !actions.contains(FrameAction::Cancel(x)) by {
            if actions.contains(FrameAction::StartRender(x)) {
                let k = choose|k: int|
                    0 <= k < actions.len() && actions[k] == FrameAction::StartRender(x);
                assert(k == 0);
            }
            match s.state {
                QueueState::Queued(old) => {
                    assert(actions[1] == FrameAction::Cancel(old));
                },
                QueueState::WaitingForEstimatedVBlankAndQueued { estimated_vblank, queued_render } => {
                    assert(actions[1] == FrameAction::Cancel(queued_render));
                },
                _ => {},
            }
        }
    } else {
        assert(actions =~= Seq::<FrameAction>::empty());
    }
}

/// The end of a frame loses track of no timer, unless it comes while only a render timer is
/// running: that timer then fires on its own.
pub proof fn law_vblank_tracks_timers(s: SchedulerState, animating: bool)
    requires
        s.timers_valid(),
        s.next_timer < u64::MAX,
        !(s.state is Queued),
    ensures
        tracks_timers(s, s.vblank(animating)),
{
    let (t, actions) = s.vblank(animating);
    let timer = s.next_timer;
    assert(!s.timers().contains(timer));
    assert forall|x: u64|
        #[trigger] t.timers().contains(x) <==> (s.timers().contains(x) || started(actions, x))
            && !actions.contains(FrameAction::Cancel(x)) by {
        if actions.len() > 0 {
            assert(actions.contains(actions[0]));
        }
        if actions.len() > 1 {
            assert(actions.contains(actions[1]));
        }
    }
}

/// The numbers of running timers stay valid, from the start and over every step.
pub proof fn law_timers_valid(
    s: SchedulerState,
    vrr_mode: AdaptiveSync,
    force: bool,
    animating: bool,
    outcome: FrameOutcome,
    command: ThreadCommand,
)
    requires
        s.timers_valid(),
        s.next_timer < u64::MAX,
    ensures
        SchedulerState::initial(vrr_mode).timers_valid(),
        s.queue_redraw(force).0.timers_valid(),
        s.vblank(animating).0.timers_valid(),
        s.estimated_vblank(force, animating).0.timers_valid(),
        s.drawn(outcome).0.timers_valid(),
        commanded(s, command, animating).0.timers_valid(),
{
    let timer = s.next_timer;
    assert(!s.timers().contains(timer));
    match s.state {
        QueueState::Queued(t) => {
            assert(s.timers().contains(t));
        },
        QueueState::WaitingForEstimatedVBlank(t) => {
            assert(s.timers().contains(t));
        },
        QueueState::WaitingForEstimatedVBlankAndQueued { estimated_vblank, queued_render } => {
            assert(s.timers().contains(estimated_vblank));
            assert(s.timers().contains(queued_render));
        },
        _ => {},
    }
}

/// Whenever a frame is handed to the display, or the time for one is over with nothing to
/// show, clients are told that they may draw again.
pub proof fn law_clients_go_on(s: SchedulerState, force: bool, animating: bool)
    requires
        s.has_compositor,
    ensures
        s.drawn(FrameOutcome::Queued).1.contains(FrameAction::SendFrameCallbacks),
        s.state is WaitingForEstimatedVBlank ==> s.estimated_vblank(force, animating).1.contains(
            FrameAction::SendFrameCallbacks,
        ),
{
    let drawn = s.drawn(FrameOutcome::Queued).1;
    assert(drawn[0] == FrameAction::SendFrameCallbacks);
    let late = s.estimated_vblank(force, animating).1;
    if s.state is WaitingForEstimatedVBlank {
        assert(late.last() == FrameAction::SendFrameCallbacks);
    }
}

/// What a setting asks for by its name, in three spellings each; without a setting, and for any
/// other name, the refresh rate varies while a window is fullscreen.
pub proof fn law_sync_setting(text: Seq<char>)
    ensures
        text == "force"@ || text == "Force"@ || text == "FORCE"@ <==> AdaptiveSync::spec_from_setting(
            Some(text),
        ) == AdaptiveSync::Force,
        text == "disabled"@ || text == "Disabled"@ || text == "DISABLED"@
            <==> AdaptiveSync::spec_from_setting(Some(text)) == AdaptiveSync::Disabled,
        AdaptiveSync::spec_from_setting(None) == AdaptiveSync::Enabled,
{
    reveal_strlit("force");
    reveal_strlit("Force");
    reveal_strlit("FORCE");
    reveal_strlit("enabled");
    reveal_strlit("Enabled");
    reveal_strlit("ENABLED");
    reveal_strlit("disabled");
    reveal_strlit("Disabled");
    reveal_strlit("DISABLED");
    assert("force"@.len() == 5 && "Force"@.len() == 5 && "FORCE"@.len() == 5);
    assert("enabled"@.len() == 7 && "Enabled"@.len() == 7 && "ENABLED"@.len() == 7);
    assert("disabled"@.len() == 8 && "Disabled"@.len() == 8 && "DISABLED"@.len() == 8);
}

/// The refresh rate varies always, never, or exactly while a window is fullscreen.
pub proof fn law_rate_varies(has_fullscreen: bool)
    ensures
        AdaptiveSync::Force.spec_active(has_fullscreen),
        !AdaptiveSync::Disabled.spec_active(has_fullscreen),
        AdaptiveSync::Enabled.spec_active(has_fullscreen) == has_fullscreen,
{
}

/// A redraw arranges the windows if the workspace that the output shows first is marked, draws
/// the pointer if it is less than the output's mode away from the output's corner, and lets the
/// refresh rate vary by what is fullscreen on the output.
pub proof fn law_redraw_plan(s: ShellView, mode: AdaptiveSync, output: OutputView, cursor: Point)
    requires
        output.mode matches Some(size) ==> (Rectangle {
            loc: output.position.0,
            size,
        }).regular(),
    ensures
        ({
            let plan = redraw_plan(s, mode, output, cursor);
            let dx = cursor.x - output.position.0.x;
            let dy = cursor.y - output.position.0.y;
            &&& s.active_on(output.name) matches Some(i) ==> plan.arrange
                == s.workspaces[i].needs_arrange
            &&& s.active_on(output.name) is None ==> !plan.arrange
            &&& output.mode matches Some(size) ==> (plan.cursor <==> 0 <= dx < size.w && 0 <= dy
                < size.h)
            &&& output.mode is None ==> !plan.cursor
            &&& mode == AdaptiveSync::Force ==> plan.vrr
            &&& mode == AdaptiveSync::Disabled ==> !plan.vrr
            &&& mode == AdaptiveSync::Enabled ==> plan.vrr == (s.fullscreen_on(
                output.name,
            ) is Some)
        }),
{
}

/// A redraw that is asked for starts a timer if nothing is due. While a frame is on its way it is
/// remembered, and while a timer runs it is not started again, unless it is forced: then a new
/// timer takes the place of the old one. Without a display nothing happens.
pub proof fn law_redraw_requested(s: SchedulerState, force: bool)
    requires
        s.next_timer < u64::MAX,
    ensures
        ({
            let (t, actions) = s.queue_redraw(force);
            let n = s.next_timer;
            &&& !s.has_compositor ==> t == s && actions.len() == 0
            &&& s.has_compositor && s.state is Idle ==> t.state == QueueState::Queued(n)
                && actions == seq![FrameAction::StartRender(n)] && t.next_timer == n + 1
            &&& s.has_compositor && s.state is WaitingForVBlank ==> t.state == (
            QueueState::WaitingForVBlank { redraw_needed: true }) && actions.len() == 0
            &&& s.has_compositor ==> (s.state matches QueueState::WaitingForEstimatedVBlank(e)
                ==> t.state == (QueueState::WaitingForEstimatedVBlankAndQueued {
                estimated_vblank: e,
                queued_render: n,
            }) && actions == seq![FrameAction::StartRender(n)])
            &&& s.has_compositor && !force && (s.state is Queued
                || s.state is WaitingForEstimatedVBlankAndQueued) ==> t == s && actions.len() == 0
            &&& s.has_compositor && force ==> (s.state matches QueueState::Queued(old) ==> t.state
                == QueueState::Queued(n) && actions == seq![
                FrameAction::StartRender(n),
                FrameAction::Cancel(old),
            ])
            &&& t.frame_count == s.frame_count
            &&& t.has_compositor == s.has_compositor
            &&& t.vrr_mode == s.vrr_mode
        }),
{
}

/// When the display has shown the frame that was handed to it, the frame is counted, and the next
/// one is queued if it was asked for meanwhile or something moves; else nothing is due.
pub proof fn law_frame_shown(s: SchedulerState, redraw_needed: bool, animating: bool)
    requires
        s.has_compositor,
        s.state == (QueueState::WaitingForVBlank { redraw_needed }),
        s.next_timer < u64::MAX,
    ensures
        ({
            let (t, actions) = s.vblank(animating);
            &&& s.frame_count < u32::MAX ==> t.frame_count == s.frame_count + 1
            &&& redraw_needed || animating ==> t.state == QueueState::Queued(s.next_timer)
                && actions == seq![FrameAction::StartRender(s.next_timer)]
            &&& !redraw_needed && !animating ==> t.state == QueueState::Idle && actions.len() == 0
        }),
{
}

/// After drawing: a frame that was handed to the display is waited for, and clients go on; one
/// with nothing to show is waited for by a timer; one that failed is drawn again.
pub proof fn law_after_drawing(s: SchedulerState, timer: u64)
    requires
        s.has_compositor,
        s.state == QueueState::Queued(timer),
        s.next_timer < u64::MAX,
    ensures
        s.drawn(FrameOutcome::Queued).0.state == (QueueState::WaitingForVBlank {
            redraw_needed: false,
        }),
        s.drawn(FrameOutcome::Queued).1 == seq![
            FrameAction::SendFrameCallbacks,
            FrameAction::ReportStates,
        ],
        s.drawn(FrameOutcome::Empty).0.state == QueueState::WaitingForEstimatedVBlank(s.next_timer),
        s.drawn(FrameOutcome::Empty).1 == seq![
            FrameAction::StartEstimate { timer: s.next_timer, force: false },
        ],
        s.drawn(FrameOutcome::Failed).0.state == QueueState::Queued(s.next_timer),
        s.drawn(FrameOutcome::Failed).1 == seq![
            FrameAction::StartRender(s.next_timer),
            FrameAction::Cancel(timer),
        ],
{
}

/// When the timer in place of a frame fires, nothing is due any more, unless a redraw is forced or
/// something moves: then it is queued. A render timer that runs goes on.
pub proof fn law_estimate_fires(s: SchedulerState, force: bool, animating: bool, e: u64, q: u64)
    requires
        s.has_compositor,
        s.next_timer < u64::MAX,
    ensures
        s.state == QueueState::WaitingForEstimatedVBlank(e) && !force && !animating ==> s.estimated_vblank(
            force,
            animating,
        ).0.state == QueueState::Idle,
        s.state == QueueState::WaitingForEstimatedVBlank(e) && (force || animating)
            ==> s.estimated_vblank(force, animating).0.state == QueueState::Queued(s.next_timer),
        s.state == (QueueState::WaitingForEstimatedVBlankAndQueued {
            estimated_vblank: e,
            queued_render: q,
        }) ==> s.estimated_vblank(force, animating).0.state == QueueState::Queued(q)
            && s.estimated_vblank(force, animating).1.len() == 0,
{
}

/// What the main thread's commands do to the schedule: a display that comes, and a change, ask for
/// a redraw; the end of a frame is taken note of; the setting for the refresh rate is kept. The
/// others leave the schedule alone.
pub proof fn law_thread_commands(s: SchedulerState, command: ThreadCommand, animating: bool)
    ensures
        ({
            let (t, actions) = commanded(s, command, animating);
            &&& command is ScheduleRender ==> (t, actions) == s.queue_redraw(false)
            &&& command is Resume ==> t.has_compositor && (t, actions) == (SchedulerState {
                has_compositor: true,
                ..s
            }).queue_redraw(false)
            &&& command is VBlank ==> (t, actions) == s.vblank(animating)
            &&& command matches ThreadCommand::UseAdaptiveSync(mode) ==> t.vrr_mode == mode
                && t.state == s.state && actions.len() == 0
            &&& command is NodeAdded || command is NodeRemoved || command is AdaptiveSyncAvailable
                || command is RenderStates || command is End ==> t == s && actions.len() == 0
            &&& command matches ThreadCommand::NodeAdded(node) ==> reaction(s, command)
                == ThreadReaction::AddNode(node)
            &&& command matches ThreadCommand::NodeRemoved(node) ==> reaction(s, command)
                == ThreadReaction::RemoveNode(node)
            &&& reaction(s, command) == ThreadReaction::Stop <==> command is End
            &&& command is AdaptiveSyncAvailable && s.has_compositor ==> reaction(s, command)
                == ThreadReaction::AnswerAdaptiveSync
            &&& command is AdaptiveSyncAvailable && !s.has_compositor ==> reaction(s, command)
                == ThreadReaction::AnswerInactive
        }),
{
}

/// The pointer is drawn before the scene, and each part of both once, in order.
pub proof fn law_pointer_in_front(cursor: nat, scene: nat, i: int)
    requires
        cursor + scene <= usize::MAX,
    ensures
        draw_order(cursor, scene).len() == cursor + scene,
        0 <= i < cursor ==> draw_order(cursor, scene)[i] == DrawItem::Cursor(i as usize),
        cursor <= i < cursor + scene ==> draw_order(cursor, scene)[i] == DrawItem::Scene(
            (i - cursor) as usize,
        ),
{
}

/// The CRTCs that show an output are those of the surfaces filed for it, in order.
pub proof fn law_crtcs_showing(entries: Seq<(u32, SurfaceEntry)>, entry: (u32, SurfaceEntry), output: u64)
    ensures
        crtcs_showing(Seq::empty(), output).len() == 0,
        entry.1.output == output ==> crtcs_showing(entries.push(entry), output) == crtcs_showing(
            entries,
            output,
        ).push(entry.0),
        entry.1.output != output ==> crtcs_showing(entries.push(entry), output) == crtcs_showing(
            entries,
            output,
        ),
{
    assert(entries.push(entry).drop_last() =~= entries);
}

/// The steps of drawing a frame: a renderer that draws with the device for itself, the frame, and
/// handing it to the display, of which clients hear if something has changed.
pub proof fn law_redraw_steps(s: SchedulerState, target: u64, has_postprocess: bool, report: StepReport)
    requires
        report != StepReport::Failed,
    ensures
        s.has_compositor ==> first_step(s, target, has_postprocess) == (RedrawStep::GetRenderer {
            render: target,
            target,
        }),
        !s.has_compositor ==> first_step(s, target, has_postprocess) == RedrawStep::Skip,
        step_after(RedrawStep::GetRenderer { render: target, target }, report)
            == RedrawStep::RenderFrame,
        step_after(RedrawStep::RenderFrame, report) == (RedrawStep::QueueFrame {
            feedback: report == StepReport::Succeeded,
        }),
{
}

/// A frame that is shown when none was waited for: a timer in its place is stopped, and a render
/// timer that was started in the meantime goes on. Else nothing is waited for any more, unless
/// something moves: then a redraw is queued. Nothing happens to a surface that waits for nothing,
/// or that has no display.
pub proof fn law_frame_shown_early(s: SchedulerState, animating: bool, e: u64, q: u64)
    requires
        s.next_timer < u64::MAX,
    ensures
        ({
            let (t, actions) = s.vblank(animating);
            &&& !s.has_compositor || s.state is Idle ==> t == s && actions.len() == 0
            &&& s.has_compositor && s.state == (QueueState::WaitingForEstimatedVBlankAndQueued {
                estimated_vblank: e,
                queued_render: q,
            }) ==> t.state == QueueState::Queued(q) && actions == seq![FrameAction::Cancel(e)]
                && t.frame_count == s.frame_count
            &&& s.has_compositor && s.state == QueueState::WaitingForEstimatedVBlank(e) ==> {
                &&& !animating ==> t.state is Idle && actions == seq![FrameAction::Cancel(e)]
                &&& animating ==> t.state == QueueState::Queued(s.next_timer) && actions == seq![
                    FrameAction::Cancel(e),
                    FrameAction::StartRender(s.next_timer),
                ]
                &&& s.frame_count < u32::MAX ==> t.frame_count == s.frame_count + 1
            }
            &&& s.has_compositor && s.state == QueueState::Queued(q) ==> {
                &&& !animating ==> t.state is Idle && actions.len() == 0
                &&& animating ==> t.state == QueueState::Queued(s.next_timer) && actions == seq![
                    FrameAction::StartRender(s.next_timer),
                ]
                &&& s.frame_count < u32::MAX ==> t.frame_count == s.frame_count + 1
            }
        }),
{
}

/// A frame with nothing to show is waited for by the timer that runs in its place, if one does; a
/// render timer on top of it is done. Else a new timer is started.
pub proof fn law_nothing_to_show(s: SchedulerState, force: bool, e: u64, q: u64)
    requires
        s.next_timer < u64::MAX,
    ensures
        ({
            let (t, actions) = s.estimate(force);
            let waits = t.state == QueueState::WaitingForEstimatedVBlank(e);
            &&& s.state == QueueState::WaitingForEstimatedVBlank(e) ==> waits && actions.len() == 0
                && t.next_timer == s.next_timer
            &&& s.state == (QueueState::WaitingForEstimatedVBlankAndQueued {
                estimated_vblank: e,
                queued_render: q,
            }) ==> waits && actions.len() == 0 && t.next_timer == s.next_timer
            &&& s.state == QueueState::Queued(q) ==> t.state
                == QueueState::WaitingForEstimatedVBlank(s.next_timer) && t.next_timer
                == s.next_timer + 1 && actions == seq![
                FrameAction::StartEstimate { timer: s.next_timer, force },
            ]
            &&& t.frame_count == s.frame_count
            &&& t.frame_callback_seq == s.frame_callback_seq
        }),
{
}

/// A forced redraw on top of a timer in place of a frame starts a new render timer and stops the
/// old one; the timer in place of the frame goes on.
pub proof fn law_redraw_forced(s: SchedulerState, e: u64, q: u64)
    requires
        s.has_compositor,
        s.next_timer < u64::MAX,
        s.state == (QueueState::WaitingForEstimatedVBlankAndQueued {
            estimated_vblank: e,
            queued_render: q,
        }),
    ensures
        s.queue_redraw(true).0.state == (QueueState::WaitingForEstimatedVBlankAndQueued {
            estimated_vblank: e,
            queued_render: s.next_timer,
        }),
        s.queue_redraw(true).1 == seq![
            FrameAction::StartRender(s.next_timer),
            FrameAction::Cancel(q),
        ],
{
}

/// Clients are told to go on when a frame was handed to the display, and when the timer in place
/// of one fires; each time the number of callbacks goes up by two. A frame that is shown, and a
/// redraw that is asked for, leave it as it is.
pub proof fn law_callbacks_counted(s: SchedulerState, force: bool, animating: bool, e: u64)
    requires
        s.has_compositor,
        s.next_timer < u64::MAX,
        s.frame_callback_seq < u64::MAX - 1,
    ensures
        s.drawn(FrameOutcome::Queued).0.frame_callback_seq == s.frame_callback_seq + 2,
        s.state == QueueState::WaitingForEstimatedVBlank(e) ==> {
            let (t, actions) = s.estimated_vblank(force, animating);
            &&& t.frame_callback_seq == s.frame_callback_seq + 2
            &&& actions.len() > 0 && actions.last() == FrameAction::SendFrameCallbacks
            &&& actions.len() == (if force || animating {
                2int
            } else {
                1
            })
        },
        s.vblank(animating).0.frame_callback_seq == s.frame_callback_seq,
        s.queue_redraw(force).0.frame_callback_seq == s.frame_callback_seq,
        s.drawn(FrameOutcome::Failed).0.frame_callback_seq == s.frame_callback_seq,
{
}

} // verus!
