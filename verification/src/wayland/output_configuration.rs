//! Output management: what clients are told of outputs, and the configurations that they put
//! together and apply.
//!
//! Objects of the protocol are numbered. A mode object is told by its mode, as no head has two
//! for one mode.

use vstd::prelude::*;

use crate::backend::device::{has_mode, OutputMode};
use crate::shell::output::{Scale, Transform};
use crate::utils::geometry::{Point, Size};
use crate::utils::lists;
use crate::utils::search;
use crate::utils::text;

verus! {

/// The mode that a client wants.
#[derive(Debug, Clone, Copy, PartialEq, Eq, Structural)]
pub enum ModeConfiguration {
    /// One of the output's modes.
    Mode(OutputMode),
    /// A size, and a refresh rate unless that is left open.
    Custom { size: Size, refresh: Option<i32> },
}

/// What a client has set of an output so far.
#[derive(Debug, Clone, Copy, PartialEq, Eq, Structural)]
pub struct PendingOutputConfigurationInner {
    pub mode: Option<ModeConfiguration>,
    pub position: Option<Point>,
    pub transform: Option<Transform>,
    pub scale: Option<Scale>,
    pub adaptive_sync: Option<bool>,
}

impl Default for PendingOutputConfigurationInner {
    fn default() -> (r: PendingOutputConfigurationInner)
        ensures
            r == (PendingOutputConfigurationInner {
                mode: None,
                position: None,
                transform: None,
                scale: None,
                adaptive_sync: None,
            }),
    {
        PendingOutputConfigurationInner {
            mode: None,
            position: None,
            transform: None,
            scale: None,
            adaptive_sync: None,
        }
    }
}

/// What a client wants of an output.
#[derive(Debug, Clone, Copy, PartialEq, Eq, Structural)]
pub enum OutputConfiguration {
    Enabled {
        mode: Option<ModeConfiguration>,
        position: Option<Point>,
        transform: Option<Transform>,
        scale: Option<Scale>,
        adaptive_sync: Option<bool>,
    },
    Disabled,
}

/// What a client sets of an output. `None` stands for a value that the protocol does not know.
#[derive(Debug, Clone, Copy, PartialEq, Eq, Structural)]
pub enum HeadRequest {
    SetMode(Option<OutputMode>),
    SetCustomMode { width: i32, height: i32, refresh: i32 },
    SetPosition { x: i32, y: i32 },
    SetScale(Scale),
    SetTransform(Option<Transform>),
    SetAdaptiveSync(Option<bool>),
}

/// Why a setting is refused.
#[derive(Debug, Clone, Copy, PartialEq, Eq, Structural)]
pub enum HeadError {
    AlreadySet,
    InvalidMode,
    InvalidTransform,
    InvalidAdaptiveSyncState,
}

impl PendingOutputConfigurationInner {
    /// Whether what the request sets was set before.
    pub open spec fn is_set(self, request: HeadRequest) -> bool {
        match request {
            HeadRequest::SetMode(_) => self.mode is Some,
            HeadRequest::SetCustomMode { .. } => self.mode is Some,
            HeadRequest::SetPosition { .. } => self.position is Some,
            HeadRequest::SetScale(_) => self.scale is Some,
            HeadRequest::SetTransform(_) => self.transform is Some,
            HeadRequest::SetAdaptiveSync(_) => self.adaptive_sync is Some,
        }
    }

    /// Why the request is refused, if it is.
    pub open spec fn refusal(self, request: HeadRequest) -> Option<HeadError> {
        if self.is_set(request) {
            Some(HeadError::AlreadySet)
        } else {
            match request {
                HeadRequest::SetMode(None) => Some(HeadError::InvalidMode),
                HeadRequest::SetTransform(None) => Some(HeadError::InvalidTransform),
                HeadRequest::SetAdaptiveSync(None) => Some(HeadError::InvalidAdaptiveSyncState),
                _ => None,
            }
        }
    }

    /// What is set after a request that is not refused.
    pub open spec fn with(self, request: HeadRequest) -> PendingOutputConfigurationInner {
        match request {
            HeadRequest::SetMode(mode) => PendingOutputConfigurationInner {
                mode: Some(ModeConfiguration::Mode(mode.unwrap())),
                ..self
            },
            HeadRequest::SetCustomMode { width, height, refresh } => PendingOutputConfigurationInner {
                mode: Some(
                    ModeConfiguration::Custom {
                        size: Size { w: width, h: height },
                        refresh: if refresh == 0 {
                            None
                        } else {
                            Some(refresh)
                        },
                    },
                ),
                ..self
            },
            HeadRequest::SetPosition { x, y } => PendingOutputConfigurationInner {
                position: Some(Point { x, y }),
                ..self
            },
            HeadRequest::SetScale(scale) => PendingOutputConfigurationInner {
                scale: Some(scale),
                ..self
            },
            HeadRequest::SetTransform(transform) => PendingOutputConfigurationInner {
                transform,
                ..self
            },
            HeadRequest::SetAdaptiveSync(adaptive_sync) => PendingOutputConfigurationInner {
                adaptive_sync,
                ..self
            },
        }
    }

    /// What the client wants, as far as it was set.
    pub open spec fn spec_finish(self) -> OutputConfiguration {
        OutputConfiguration::Enabled {
            mode: self.mode,
            position: self.position,
            transform: self.transform,
            scale: self.scale,
            adaptive_sync: self.adaptive_sync,
        }
    }

    /// What the client wants, as far as it was set.
    pub fn finish(&self) -> (r: OutputConfiguration)
        ensures
            r == self.spec_finish(),
    {
        OutputConfiguration::Enabled {
            mode: self.mode,
            position: self.position,
            transform: self.transform,
            scale: self.scale,
            adaptive_sync: self.adaptive_sync,
        }
    }

    /// Handles a setting. Nothing can be set twice.
    pub fn request(&mut self, request: HeadRequest) -> (r: Result<(), HeadError>)
        ensures
            match r {
                Ok(_) => old(self).refusal(request) is None && *final(self) == old(self).with(
                    request,
                ),
                Err(error) => old(self).refusal(request) == Some(error) && *final(self) == *old(
                    self,
                ),
            },
    {
        match request {
            HeadRequest::SetMode(mode) => {
                if self.mode.is_some() {
                    return Err(HeadError::AlreadySet);
                }
                match mode {
                    Some(mode) => {
                        self.mode = Some(ModeConfiguration::Mode(mode));
                    },
                    None => {
                        return Err(HeadError::InvalidMode);
                    },
                }
            },
            HeadRequest::SetCustomMode { width, height, refresh } => {
                if self.mode.is_some() {
                    return Err(HeadError::AlreadySet);
                }
                self.mode = Some(
                    ModeConfiguration::Custom {
                        size: Size { w: width, h: height },
                        refresh: if refresh == 0 {
                            None
                        } else {
                            Some(refresh)
                        },
                    },
                );
            },
            HeadRequest::SetPosition { x, y } => {
                if self.position.is_some() {
                    return Err(HeadError::AlreadySet);
                }
                self.position = Some(Point { x, y });
            },
            HeadRequest::SetScale(scale) => {
                if self.scale.is_some() {
                    return Err(HeadError::AlreadySet);
                }
                self.scale = Some(scale);
            },
            HeadRequest::SetTransform(transform) => {
                if self.transform.is_some() {
                    return Err(HeadError::AlreadySet);
                }
                if transform.is_none() {
                    return Err(HeadError::InvalidTransform);
                }
                self.transform = transform;
            },
            HeadRequest::SetAdaptiveSync(adaptive_sync) => {
                if self.adaptive_sync.is_some() {
                    return Err(HeadError::AlreadySet);
                }
                if adaptive_sync.is_none() {
                    return Err(HeadError::InvalidAdaptiveSyncState);
                }
                self.adaptive_sync = adaptive_sync;
            },
        }
        Ok(())
    }
}

/// A setting that was accepted is refused when it comes again.
pub proof fn law_set_once(p: PendingOutputConfigurationInner, request: HeadRequest)
    requires
        p.refusal(request) is None,
    ensures
        p.with(request).refusal(request) == Some(HeadError::AlreadySet),
{
}

/// Settings of different things can be made in any order.
pub proof fn law_settings_commute(
    p: PendingOutputConfigurationInner,
    a: HeadRequest,
    b: HeadRequest,
)
    requires
        p.refusal(a) is None,
        p.with(a).refusal(b) is None,
    ensures
        p.refusal(b) is None,
        p.with(b).refusal(a) is None,
        p.with(a).with(b) == p.with(b).with(a),
{
}

/// A configuration that a client puts together.
pub struct PendingConfigurationInner {
    serial: u32,
    used: bool,
    heads: Vec<(u64, Option<PendingOutputConfigurationInner>)>,
}

/// A configuration that a client puts together: the state of outputs that it is based on,
/// whether it was used, and its heads, each with its settings or to be disabled.
#[verifier::ext_equal]
pub ghost struct PendingView {
    pub serial: u32,
    pub used: bool,
    pub heads: Seq<(u64, Option<PendingOutputConfigurationInner>)>,
}

impl View for PendingConfigurationInner {
    type V = PendingView;

    closed spec fn view(&self) -> PendingView {
        PendingView { serial: self.serial, used: self.used, heads: self.heads@ }
    }
}

/// Why a configuration is refused.
#[derive(Debug, Clone, Copy, PartialEq, Eq, Structural)]
pub enum ConfigurationError {
    AlreadyConfiguredHead,
    AlreadyUsed,
    InvalidMode,
}

/// Whether the head at a place is the one.
pub open spec fn head_is(
    heads: Seq<(u64, Option<PendingOutputConfigurationInner>)>,
    head: u64,
) -> spec_fn(int) -> bool {
    |i: int| heads[i].0 == head
}

impl PendingView {
    /// Where the head stands.
    pub open spec fn place(self, head: u64) -> Option<int> {
        search::first_below(self.heads.len(), head_is(self.heads, head))
    }

    /// The configuration with one more head.
    pub open spec fn with_head(
        self,
        head: u64,
        settings: Option<PendingOutputConfigurationInner>,
    ) -> PendingView {
        PendingView { heads: self.heads.push((head, settings)), ..self }
    }

    /// The settings of a head.
    pub open spec fn settings(self, head: u64) -> Option<PendingOutputConfigurationInner> {
        match self.place(head) {
            Some(i) => self.heads[i].1,
            None => None,
        }
    }
}

/// Nothing set.
pub open spec fn nothing_set() -> PendingOutputConfigurationInner {
    PendingOutputConfigurationInner {
        mode: None,
        position: None,
        transform: None,
        scale: None,
        adaptive_sync: None,
    }
}

impl PendingConfigurationInner {
    /// An empty configuration, based on the state of outputs with this serial.
    pub fn new(serial: u32) -> (r: PendingConfigurationInner)
        ensures
            r@ == (PendingView { serial, used: false, heads: Seq::empty() }),
    {
        PendingConfigurationInner { serial, used: false, heads: Vec::new() }
    }

    fn find(&self, head: u64) -> (r: Option<usize>)
        ensures
            match r {
                Some(i) => self@.place(head) == Some(i as int) && i < self@.heads.len()
                    && self@.heads[i as int].0 == head,
                None => self@.place(head) is None,
            },
    {
        let ghost p = head_is(self@.heads, head);
        let mut i: usize = 0;
        while i < self.heads.len()
            invariant
                i <= self@.heads.len(),
                p == head_is(self@.heads, head),
                forall|j: int| 0 <= j < i ==> !(#[trigger] p(j)),
            decreases self@.heads.len() - i,
        {
            if self.heads[i].0 == head {
                proof {
                    search::lemma_is_first_below(self@.heads.len(), p, i as int);
                }
                return Some(i);
            }
            i = i + 1;
        }
        proof {
            search::lemma_none_below(self@.heads.len(), p);
        }
        None
    }

    /// Takes a head into the configuration, with nothing set. No head can be taken in twice.
    pub fn enable_head(&mut self, head: u64) -> (r: Result<(), ConfigurationError>)
        ensures
            match r {
                Ok(_) => old(self)@.place(head) is None && final(self)@ == old(self)@.with_head(
                    head,
                    Some(nothing_set()),
                ),
                Err(error) => error == ConfigurationError::AlreadyConfiguredHead && old(
                    self,
                )@.place(head) is Some && final(self)@ == old(self)@,
            },
    {
        if self.find(head).is_some() {
            return Err(ConfigurationError::AlreadyConfiguredHead);
        }
        let settings = PendingOutputConfigurationInner {
            mode: None,
            position: None,
            transform: None,
            scale: None,
            adaptive_sync: None,
        };
        self.heads.push((head, Some(settings)));
        Ok(())
    }

    /// Takes a head into the configuration as one to be disabled.
    pub fn disable_head(&mut self, head: u64) -> (r: Result<(), ConfigurationError>)
        ensures
            match r {
                Ok(_) => old(self)@.place(head) is None && final(self)@ == old(self)@.with_head(
                    head,
                    None,
                ),
                Err(error) => error == ConfigurationError::AlreadyConfiguredHead && old(
                    self,
                )@.place(head) is Some && final(self)@ == old(self)@,
            },
    {
        if self.find(head).is_some() {
            return Err(ConfigurationError::AlreadyConfiguredHead);
        }
        self.heads.push((head, None));
        Ok(())
    }

    /// Handles a setting of a head. `None`: the head is not one that settings can be made for.
    pub fn configure(&mut self, head: u64, request: HeadRequest) -> (r: Option<
        Result<(), HeadError>,
    >)
        ensures
            match old(self)@.settings(head) {
                Some(settings) => {
                    let i = old(self)@.place(head).unwrap();
                    match settings.refusal(request) {
                        Some(error) => r == Some(Err::<(), HeadError>(error)) && final(self)@
                            == old(self)@,
                        None => r == Some(Ok::<(), HeadError>(())) && final(self)@ == (PendingView {
                            heads: old(self)@.heads.update(
                                i,
                                (head, Some(settings.with(request))),
                            ),
                            ..old(self)@
                        }),
                    }
                },
                None => r is None && final(self)@ == old(self)@,
            },
    {
        match self.find(head) {
            Some(i) => {
                let (_, settings) = self.heads[i];
                match settings {
                    Some(settings) => {
                        let mut next = settings;
                        match next.request(request) {
                            Ok(_) => {
                                self.heads.set(i, (head, Some(next)));
                                Some(Ok(()))
                            },
                            Err(error) => Some(Err(error)),
                        }
                    },
                    None => None,
                }
            },
            None => None,
        }
    }
}

/// What a client is told of an output. Texts go by the output that the head stands for.
#[derive(Debug, Clone, Copy, PartialEq, Eq, Structural)]
pub enum HeadEvent {
    /// There is a new head.
    Announce,
    Name,
    Description,
    PhysicalSize { w: i32, h: i32 },
    /// A mode is there no more.
    ModeFinished(OutputMode),
    /// There is a new mode, with size and refresh rate, and it may be the preferred one.
    NewMode { mode: OutputMode, preferred: bool },
    CurrentMode(OutputMode),
    Enabled,
    Position(Point),
    Transform(Transform),
    Scale(Scale),
    Make,
    Model,
    SerialNumber,
    AdaptiveSyncDisabled,
    /// The head is there no more.
    Finished,
}

/// What is told of an output.
pub struct HeadInfo {
    pub output: u64,
    pub physical_size: Size,
    pub modes: Vec<OutputMode>,
    pub preferred_mode: Option<OutputMode>,
    pub current_mode: Option<OutputMode>,
    pub position: Point,
    pub transform: Transform,
    pub scale: Scale,
    pub make: String,
    pub model: String,
    pub serial_number: String,
}

/// What is told of an output.
pub ghost struct HeadInfoView {
    pub output: u64,
    pub physical_size: Size,
    pub modes: Seq<OutputMode>,
    pub preferred_mode: Option<OutputMode>,
    pub current_mode: Option<OutputMode>,
    pub position: Point,
    pub transform: Transform,
    pub scale: Scale,
    pub make: Seq<char>,
    pub model: Seq<char>,
    pub serial_number: Seq<char>,
}

impl View for HeadInfo {
    type V = HeadInfoView;

    open spec fn view(&self) -> HeadInfoView {
        HeadInfoView {
            output: self.output,
            physical_size: self.physical_size,
            modes: self.modes@,
            preferred_mode: self.preferred_mode,
            current_mode: self.current_mode,
            position: self.position,
            transform: self.transform,
            scale: self.scale,
            make: self.make@,
            model: self.model@,
            serial_number: self.serial_number@,
        }
    }
}

/// The first version of heads with make, model and serial number.
pub const MAKE_SINCE: u32 = 2;

/// The first version of heads with adaptive sync.
pub const ADAPTIVE_SYNC_SINCE: u32 = 4;

/// The modes that are among `modes`.
pub open spec fn among(modes: Seq<OutputMode>) -> spec_fn(OutputMode) -> bool {
    |m: OutputMode| modes.contains(m)
}

/// The modes that are not among `modes`.
pub open spec fn gone_from(modes: Seq<OutputMode>) -> spec_fn(OutputMode) -> bool {
    |m: OutputMode| !modes.contains(m)
}

/// One event, if it is due.
pub open spec fn event_if(due: bool, event: HeadEvent) -> Seq<HeadEvent> {
    if due {
        seq![event]
    } else {
        Seq::empty()
    }
}

/// That the modes are there no more.
pub open spec fn finished_events(modes: Seq<OutputMode>) -> Seq<HeadEvent> {
    Seq::new(modes.len(), |i: int| HeadEvent::ModeFinished(modes[i]))
}

/// The modes that a client knows of once it was told of the output's first `n`, and the events
/// by which it was told.
pub open spec fn told_modes(
    known: Seq<OutputMode>,
    info: HeadInfoView,
    n: nat,
    can_create: bool,
) -> (Seq<OutputMode>, Seq<HeadEvent>)
    decreases n,
{
    if n == 0 {
        (known, Seq::empty())
    } else {
        let (before, events) = told_modes(known, info, (n - 1) as nat, can_create);
        let mode = info.modes[n - 1];
        let current = event_if(info.current_mode == Some(mode), HeadEvent::CurrentMode(mode));
        if before.contains(mode) {
            (before, events + current)
        } else if can_create {
            (
                before.push(mode),
                events.push(
                    HeadEvent::NewMode { mode, preferred: info.preferred_mode == Some(mode) },
                ) + current,
            )
        } else {
            (before, events)
        }
    }
}

/// The modes that a client knows of once it was told of an output.
pub open spec fn modes_after(
    known: Seq<OutputMode>,
    info: HeadInfoView,
    can_create: bool,
) -> Seq<OutputMode> {
    told_modes(known.filter(among(info.modes)), info, info.modes.len(), can_create).0
}

/// What a client is told of an output before its modes.
pub open spec fn opening_events(info: HeadInfoView, is_new: bool) -> Seq<HeadEvent> {
    event_if(is_new, HeadEvent::Announce) + seq![HeadEvent::Name, HeadEvent::Description] + event_if(
        info.physical_size.w != 0 && info.physical_size.h != 0,
        HeadEvent::PhysicalSize { w: info.physical_size.w, h: info.physical_size.h },
    )
}

/// What a client is told of an output after its modes. What is unknown is passed over.
pub open spec fn closing_events(info: HeadInfoView, version: u32) -> Seq<HeadEvent> {
    seq![
        HeadEvent::Enabled,
        HeadEvent::Position(info.position),
        HeadEvent::Transform(info.transform),
        HeadEvent::Scale(info.scale),
    ] + event_if(version >= MAKE_SINCE && info.make != "Unknown"@, HeadEvent::Make) + event_if(
        version >= MAKE_SINCE && info.model != "Unknown"@,
        HeadEvent::Model,
    ) + event_if(
        version >= MAKE_SINCE && info.serial_number != "Unknown"@,
        HeadEvent::SerialNumber,
    ) + event_if(version >= ADAPTIVE_SYNC_SINCE, HeadEvent::AdaptiveSyncDisabled)
}

/// All that a client is told of an output, by the modes that it knows of.
pub open spec fn head_events(
    known: Seq<OutputMode>,
    info: HeadInfoView,
    version: u32,
    is_new: bool,
    can_create: bool,
) -> Seq<HeadEvent> {
    opening_events(info, is_new) + finished_events(known.filter(gone_from(info.modes)))
        + told_modes(
        known.filter(among(info.modes)),
        info,
        info.modes.len(),
        can_create,
    ).1 + closing_events(info, version)
}

fn push_if(events: &mut Vec<HeadEvent>, due: bool, event: HeadEvent)
    ensures
        final(events)@ == old(events)@ + event_if(due, event),
{
    if due {
        events.push(event);
    }
    assert(events@ =~= old(events)@ + event_if(due, event));
}

fn is_mode(a: Option<OutputMode>, mode: OutputMode) -> (r: bool)
    ensures
        r == (a == Some(mode)),
{
    match a {
        Some(other) => other == mode,
        None => false,
    }
}

fn push_opening(events: &mut Vec<HeadEvent>, info: &HeadInfo, is_new: bool)
    ensures
        final(events)@ == old(events)@ + opening_events(info@, is_new),
{
    push_if(events, is_new, HeadEvent::Announce);
    events.push(HeadEvent::Name);
    events.push(HeadEvent::Description);
    let size = info.physical_size;
    push_if(
        events,
        size.w != 0 && size.h != 0,
        HeadEvent::PhysicalSize { w: size.w, h: size.h },
    );
    assert(events@ =~= old(events)@ + opening_events(info@, is_new));
}

fn push_closing(events: &mut Vec<HeadEvent>, info: &HeadInfo, version: u32)
    ensures
        final(events)@ == old(events)@ + closing_events(info@, version),
{
    events.push(HeadEvent::Enabled);
    events.push(HeadEvent::Position(info.position));
    events.push(HeadEvent::Transform(info.transform));
    events.push(HeadEvent::Scale(info.scale));
    let named = version >= MAKE_SINCE;
    push_if(
        events,
        named && !text::same_text(info.make.as_str(), "Unknown"),
        HeadEvent::Make,
    );
    push_if(
        events,
        named && !text::same_text(info.model.as_str(), "Unknown"),
        HeadEvent::Model,
    );
    push_if(
        events,
        named && !text::same_text(info.serial_number.as_str(), "Unknown"),
        HeadEvent::SerialNumber,
    );
    push_if(events, version >= ADAPTIVE_SYNC_SINCE, HeadEvent::AdaptiveSyncDisabled);
    assert(events@ =~= old(events)@ + closing_events(info@, version));
}

/// Takes the modes off that are there no more.
fn drop_modes(events: &mut Vec<HeadEvent>, known: &Vec<OutputMode>, modes: &Vec<OutputMode>) -> (r:
    Vec<OutputMode>)
    ensures
        r@ == known@.filter(among(modes@)),
        final(events)@ == old(events)@ + finished_events(known@.filter(gone_from(modes@))),
{
    let ghost stays = among(modes@);
    let ghost goes = gone_from(modes@);
    let mut kept: Vec<OutputMode> = Vec::new();
    let mut i: usize = 0;
    proof {
        reveal(Seq::filter);
        assert(known@.take(0).filter(stays) =~= Seq::<OutputMode>::empty());
        assert(known@.take(0).filter(goes) =~= Seq::<OutputMode>::empty());
        assert(events@ =~= old(events)@ + finished_events(known@.take(0).filter(goes)));
    }
    while i < known.len()
        invariant
            i <= known@.len(),
            stays == among(modes@),
            goes == gone_from(modes@),
            kept@ == known@.take(i as int).filter(stays),
            events@ == old(events)@ + finished_events(known@.take(i as int).filter(goes)),
        decreases known@.len() - i,
    {
        let mode = known[i];
        let ghost gone = known@.take(i as int).filter(goes);
        proof {
            reveal(Seq::filter);
            assert(known@.take(i + 1).drop_last() =~= known@.take(i as int));
            assert(known@.take(i + 1).last() == mode);
        }
        if has_mode(modes, mode) {
            kept.push(mode);
        } else {
            events.push(HeadEvent::ModeFinished(mode));
            assert(finished_events(gone.push(mode)) =~= finished_events(gone).push(
                HeadEvent::ModeFinished(mode),
            ));
            assert(events@ =~= old(events)@ + finished_events(gone.push(mode)));
        }
        i = i + 1;
    }
    assert(known@.take(i as int) =~= known@);
    kept
}

/// Tells of the modes that there are.
fn tell_modes(
    events: &mut Vec<HeadEvent>,
    kept: Vec<OutputMode>,
    info: &HeadInfo,
    can_create: bool,
) -> (r: Vec<OutputMode>)
    ensures
        r@ == told_modes(kept@, info@, info@.modes.len(), can_create).0,
        final(events)@ == old(events)@ + told_modes(
            kept@,
            info@,
            info@.modes.len(),
            can_create,
        ).1,
{
    let ghost start = kept@;
    let mut known = kept;
    let mut i: usize = 0;
    assert(events@ =~= old(events)@ + Seq::<HeadEvent>::empty());
    while i < info.modes.len()
        invariant
            i <= info@.modes.len(),
            known@ == told_modes(start, info@, i as nat, can_create).0,
            events@ == old(events)@ + told_modes(start, info@, i as nat, can_create).1,
        decreases info@.modes.len() - i,
    {
        let mode = info.modes[i];
        let ghost told = told_modes(start, info@, i as nat, can_create).1;
        let current = is_mode(info.current_mode, mode);
        if has_mode(&known, mode) {
            push_if(events, current, HeadEvent::CurrentMode(mode));
        } else if can_create {
            let preferred = is_mode(info.preferred_mode, mode);
            events.push(HeadEvent::NewMode { mode, preferred });
            known.push(mode);
            push_if(events, current, HeadEvent::CurrentMode(mode));
        }
        assert(events@ =~= old(events)@ + told_modes(start, info@, (i + 1) as nat, can_create).1);
        i = i + 1;
    }
    known
}

/// A head: an output as a client knows it.
pub struct OutputHeadInstance {
    manager: u64,
    obj: u64,
    output: u64,
    modes: Vec<OutputMode>,
}

/// A head: an output as a client knows it.
#[verifier::ext_equal]
pub ghost struct HeadView {
    /// The manager object that it belongs to.
    pub manager: u64,
    pub obj: u64,
    pub output: u64,
    /// The modes that the client knows of.
    pub modes: Seq<OutputMode>,
}

impl View for OutputHeadInstance {
    type V = HeadView;

    closed spec fn view(&self) -> HeadView {
        HeadView {
            manager: self.manager,
            obj: self.obj,
            output: self.output,
            modes: self.modes@,
        }
    }
}

/// The heads, as mathematical values.
pub open spec fn head_views(heads: Seq<OutputHeadInstance>) -> Seq<HeadView> {
    Seq::new(heads.len(), |i: int| heads[i]@)
}

/// The heads of other managers.
pub open spec fn of_other_manager(manager: u64) -> spec_fn(HeadView) -> bool {
    |h: HeadView| h.manager != manager
}

/// The other heads.
pub open spec fn other_head(obj: u64) -> spec_fn(HeadView) -> bool {
    |h: HeadView| h.obj != obj
}

/// The heads of outputs that stay.
pub open spec fn output_stays(gone: Seq<u64>) -> spec_fn(HeadView) -> bool {
    |h: HeadView| !gone.contains(h.output)
}

/// The heads of an output.
pub open spec fn of_output(output: u64) -> spec_fn(HeadView) -> bool {
    |h: HeadView| h.output == output
}

/// What a client is told of a head that goes.
pub struct FinishedHead {
    pub manager: u64,
    pub head: u64,
    pub events: Vec<HeadEvent>,
}

/// What a client is told of a head that goes.
#[verifier::ext_equal]
pub ghost struct FinishedView {
    pub manager: u64,
    pub head: u64,
    pub events: Seq<HeadEvent>,
}

impl View for FinishedHead {
    type V = FinishedView;

    open spec fn view(&self) -> FinishedView {
        FinishedView { manager: self.manager, head: self.head, events: self.events@ }
    }
}

/// The heads that go, as mathematical values.
pub open spec fn finished_views(heads: Seq<FinishedHead>) -> Seq<FinishedView> {
    Seq::new(heads.len(), |i: int| heads[i]@)
}

/// What a client is told of a head that goes: that its modes are there no more, and then that
/// the head is.
pub open spec fn finish(head: HeadView) -> FinishedView {
    FinishedView {
        manager: head.manager,
        head: head.obj,
        events: finished_events(head.modes).push(HeadEvent::Finished),
    }
}

/// What clients are told of heads that go, head by head.
pub open spec fn finish_all(heads: Seq<HeadView>) -> Seq<FinishedView> {
    Seq::new(heads.len(), |i: int| finish(heads[i]))
}

/// The heads of some outputs, output by output. An output that is given again adds nothing.
pub open spec fn heads_of(heads: Seq<HeadView>, outputs: Seq<u64>) -> Seq<HeadView>
    decreases outputs.len(),
{
    if outputs.len() == 0 {
        Seq::empty()
    } else {
        let before = heads_of(heads, outputs.drop_last());
        if outputs.drop_last().contains(outputs.last()) {
            before
        } else {
            before + heads.filter(of_output(outputs.last()))
        }
    }
}

/// Whether the head at a place is an output's, of a manager.
pub open spec fn stands_for(heads: Seq<HeadView>, manager: u64, output: u64) -> spec_fn(
    int,
) -> bool {
    |i: int| heads[i].manager == manager && heads[i].output == output
}

/// Whether the head at a place is the one.
pub open spec fn object_is(heads: Seq<HeadView>, obj: u64) -> spec_fn(int) -> bool {
    |i: int| heads[i].obj == obj
}

/// The other modes.
pub open spec fn other_mode(mode: OutputMode) -> spec_fn(OutputMode) -> bool {
    |m: OutputMode| m != mode
}

/// The head, without the mode if it is the one.
pub open spec fn without_mode(obj: u64, mode: OutputMode) -> spec_fn(HeadView) -> HeadView {
    |h: HeadView|
        if h.obj == obj {
            HeadView { modes: h.modes.filter(other_mode(mode)), ..h }
        } else {
            h
        }
}

fn drop_mode(modes: &Vec<OutputMode>, mode: OutputMode) -> (r: Vec<OutputMode>)
    ensures
        r@ == modes@.filter(other_mode(mode)),
{
    let ghost p = other_mode(mode);
    let mut kept: Vec<OutputMode> = Vec::new();
    let mut i: usize = 0;
    proof {
        reveal(Seq::filter);
        assert(modes@.take(0).filter(p) =~= Seq::<OutputMode>::empty());
    }
    while i < modes.len()
        invariant
            i <= modes@.len(),
            p == other_mode(mode),
            kept@ == modes@.take(i as int).filter(p),
        decreases modes@.len() - i,
    {
        proof {
            reveal(Seq::filter);
            assert(modes@.take(i + 1).drop_last() =~= modes@.take(i as int));
        }
        if modes[i] != mode {
            kept.push(modes[i]);
        }
        i = i + 1;
    }
    assert(modes@.take(i as int) =~= modes@);
    kept
}

/// The clients' view of outputs.
pub struct OutputConfigurationState {
    outputs: Vec<u64>,
    managers: Vec<u64>,
    heads: Vec<OutputHeadInstance>,
    serial_counter: u32,
}

/// The clients' view of outputs: the outputs, the clients' manager objects, the heads that they
/// know of, and the serial of the state that they were told last.
#[verifier::ext_equal]
pub ghost struct ConfigurationView {
    pub outputs: Seq<u64>,
    pub managers: Seq<u64>,
    pub heads: Seq<HeadView>,
    pub serial: u32,
}

impl View for OutputConfigurationState {
    type V = ConfigurationView;

    closed spec fn view(&self) -> ConfigurationView {
        ConfigurationView {
            outputs: self.outputs@,
            managers: self.managers@,
            heads: head_views(self.heads@),
            serial: self.serial_counter,
        }
    }
}

/// Which outputs the heads of a configuration stand for, each with what the client wants;
/// `None` where a head is not known.
pub open spec fn resolved(
    state: ConfigurationView,
    heads: Seq<(u64, Option<PendingOutputConfigurationInner>)>,
) -> Option<Seq<(u64, OutputConfiguration)>>
    decreases heads.len(),
{
    if heads.len() == 0 {
        Some(Seq::empty())
    } else {
        let (head, settings) = heads.last();
        match (resolved(state, heads.drop_last()), state.output_of(head)) {
            (Some(before), Some(output)) => Some(
                before.push(
                    (
                        output,
                        match settings {
                            Some(settings) => settings.spec_finish(),
                            None => OutputConfiguration::Disabled,
                        },
                    ),
                ),
            ),
            _ => None,
        }
    }
}

impl ConfigurationView {
    /// Where the head of an output stands, for a manager.
    pub open spec fn head_place(self, manager: u64, output: u64) -> Option<int> {
        search::first_below(self.heads.len(), stands_for(self.heads, manager, output))
    }

    /// The output that a head stands for.
    pub open spec fn output_of(self, obj: u64) -> Option<u64> {
        match search::first_below(self.heads.len(), object_is(self.heads, obj)) {
            Some(i) => Some(self.heads[i].output),
            None => None,
        }
    }

    /// The state once a client was told of an output, and what it was told. A client that has
    /// no head for the output is told only if it gets one.
    pub open spec fn told(
        self,
        manager: u64,
        info: HeadInfoView,
        version: u32,
        new_head: Option<u64>,
        can_create: bool,
    ) -> (ConfigurationView, Seq<HeadEvent>) {
        match self.head_place(manager, info.output) {
            Some(i) => (
                ConfigurationView {
                    heads: self.heads.update(
                        i,
                        HeadView {
                            modes: modes_after(self.heads[i].modes, info, can_create),
                            ..self.heads[i]
                        },
                    ),
                    ..self
                },
                head_events(self.heads[i].modes, info, version, false, can_create),
            ),
            None => match new_head {
                Some(obj) => (
                    ConfigurationView {
                        heads: self.heads.push(
                            HeadView {
                                manager,
                                obj,
                                output: info.output,
                                modes: modes_after(Seq::empty(), info, can_create),
                            },
                        ),
                        ..self
                    },
                    head_events(Seq::empty(), info, version, true, can_create),
                ),
                None => (self, Seq::empty()),
            },
        }
    }

    /// The state without some outputs.
    pub open spec fn without_outputs(self, gone: Seq<u64>) -> ConfigurationView {
        ConfigurationView {
            outputs: lists::without_all(self.outputs, gone),
            heads: self.heads.filter(output_stays(gone)),
            ..self
        }
    }
}

/// How the use of a configuration starts.
pub enum Use {
    /// The configuration was used before.
    AlreadyUsed,
    /// Outputs have changed since it was started.
    Cancelled,
    /// It names a head that is not known.
    InvalidMode,
    /// These outputs are to be configured.
    Ready(Vec<(u64, OutputConfiguration)>),
}

/// Which heads to keep.
enum HeadFilter<'a> {
    OtherManager(u64),
    OtherHead(u64),
    OutputStays(&'a Vec<u64>),
}

impl<'a> HeadFilter<'a> {
    spec fn keeps(self) -> spec_fn(HeadView) -> bool {
        match self {
            HeadFilter::OtherManager(manager) => of_other_manager(manager),
            HeadFilter::OtherHead(obj) => other_head(obj),
            HeadFilter::OutputStays(gone) => output_stays(gone@),
        }
    }

    fn test(&self, head: &OutputHeadInstance) -> (r: bool)
        ensures
            r == self.keeps()(head@),
    {
        match self {
            HeadFilter::OtherManager(manager) => head.manager != *manager,
            HeadFilter::OtherHead(obj) => head.obj != *obj,
            HeadFilter::OutputStays(gone) => !lists::contains(gone, head.output),
        }
    }
}

fn retain_heads(heads: &mut Vec<OutputHeadInstance>, filter: &HeadFilter)
    ensures
        head_views(final(heads)@) == head_views(old(heads)@).filter(filter.keeps()),
{
    let ghost all = head_views(heads@);
    let ghost p = filter.keeps();
    let ghost mut done: int = 0;
    let mut i: usize = 0;
    proof {
        reveal(Seq::filter);
        assert(all.take(0).filter(p) =~= Seq::<HeadView>::empty());
        assert(all.skip(0) =~= all);
        assert(head_views(heads@) =~= all.take(0).filter(p) + all.skip(0));
    }
    while i < heads.len()
        invariant
            all == head_views(old(heads)@),
            p == filter.keeps(),
            0 <= done <= all.len(),
            i == all.take(done).filter(p).len(),
            head_views(heads@) == all.take(done).filter(p) + all.skip(done),
        decreases all.len() - done,
    {
        let ghost kept = all.take(done).filter(p);
        let ghost now = head_views(heads@);
        proof {
            reveal(Seq::filter);
            assert(now.len() == heads@.len());
            assert(now[i as int] == all[done]);
            assert(heads@[i as int]@ == all[done]);
            assert(all.take(done + 1).drop_last() =~= all.take(done));
            assert(all.take(done + 1).last() == all[done]);
        }
        if filter.test(&heads[i]) {
            i = i + 1;
            proof {
                assert(now =~= kept.push(all[done]) + all.skip(done + 1));
            }
        } else {
            heads.remove(i);
            proof {
                assert(head_views(heads@) =~= now.remove(i as int));
                assert(now.remove(i as int) =~= kept + all.skip(done + 1));
            }
        }
        proof {
            done = done + 1;
        }
    }
    proof {
        assert(head_views(heads@).len() == heads@.len());
        assert(all.skip(done).len() == 0);
        assert(all.take(done) =~= all);
        assert(head_views(heads@) =~= all.filter(p));
    }
}

impl OutputConfigurationState {
    /// No outputs and no clients.
    pub fn new() -> (r: OutputConfigurationState)
        ensures
            r@ == (ConfigurationView {
                outputs: Seq::empty(),
                managers: Seq::empty(),
                heads: Seq::empty(),
                serial: 0,
            }),
    {
        let r = OutputConfigurationState {
            outputs: Vec::new(),
            managers: Vec::new(),
            heads: Vec::new(),
            serial_counter: 0,
        };
        assert(r@.heads =~= Seq::<HeadView>::empty());
        r
    }

    /// The outputs.
    pub fn outputs(&self) -> (r: Vec<u64>)
        ensures
            r@ == self@.outputs,
    {
        lists::copy_list(&self.outputs)
    }

    /// The clients' manager objects.
    pub fn managers(&self) -> (r: Vec<u64>)
        ensures
            r@ == self@.managers,
    {
        lists::copy_list(&self.managers)
    }

    /// The serial of the state that clients were told last.
    pub fn serial(&self) -> (r: u32)
        ensures
            r == self@.serial,
    {
        self.serial_counter
    }

    /// Adds outputs, but for those that are there.
    pub fn add_heads(&mut self, outputs: &Vec<u64>)
        ensures
            final(self)@ == (ConfigurationView {
                outputs: old(self)@.outputs + lists::without_all(outputs@, old(self)@.outputs),
                ..old(self)@
            }),
    {
        let mut fresh = lists::remove_all(outputs, &self.outputs);
        self.outputs.append(&mut fresh);
    }

    /// What a client is told of the head at a place when it goes.
    fn finish_head(&self, i: usize) -> (r: FinishedHead)
        requires
            i < self@.heads.len(),
        ensures
            r@ == finish(self@.heads[i as int]),
    {
        assert(self.heads@.len() == self@.heads.len());
        let head = &self.heads[i];
        let mut events: Vec<HeadEvent> = Vec::new();
        let mut k: usize = 0;
        assert(events@ =~= finished_events(head.modes@).take(0));
        while k < head.modes.len()
            invariant
                k <= head.modes@.len(),
                events@ == finished_events(head.modes@).take(k as int),
            decreases head.modes@.len() - k,
        {
            events.push(HeadEvent::ModeFinished(head.modes[k]));
            proof {
                assert(finished_events(head.modes@).take(k + 1) =~= finished_events(
                    head.modes@,
                ).take(k as int).push(finished_events(head.modes@)[k as int]));
            }
            k = k + 1;
        }
        assert(finished_events(head.modes@).take(k as int) =~= finished_events(head.modes@));
        events.push(HeadEvent::Finished);
        FinishedHead { manager: head.manager, head: head.obj, events }
    }

    /// Appends what clients are told of the heads of an output when they go.
    fn finish_output(&self, output: u64, finished: &mut Vec<FinishedHead>)
        ensures
            finished_views(final(finished)@) == finished_views(old(finished)@) + finish_all(
                self@.heads.filter(of_output(output)),
            ),
    {
        let ghost all = self@.heads;
        let ghost p = of_output(output);
        let ghost start = finished_views(finished@);
        let mut i: usize = 0;
        proof {
            reveal(Seq::filter);
            assert(all.take(0).filter(p) =~= Seq::<HeadView>::empty());
            assert(start =~= start + finish_all(all.take(0).filter(p)));
        }
        while i < self.heads.len()
            invariant
                all == self@.heads,
                p == of_output(output),
                i <= self.heads@.len(),
                finished_views(finished@) == start + finish_all(all.take(i as int).filter(p)),
            decreases self.heads@.len() - i,
        {
            let ghost before = finished@;
            let ghost passed = all.take(i as int).filter(p);
            proof {
                reveal(Seq::filter);
                assert(all.take(i + 1).drop_last() =~= all.take(i as int));
                assert(all.take(i + 1).last() == self.heads@[i as int]@);
            }
            if self.heads[i].output == output {
                finished.push(self.finish_head(i));
                proof {
                    assert(finished_views(finished@) =~= finished_views(before).push(
                        finish(all[i as int]),
                    ));
                    assert(finish_all(passed.push(all[i as int])) =~= finish_all(passed).push(
                        finish(all[i as int]),
                    ));
                    assert(finished_views(finished@) =~= start + finish_all(
                        passed.push(all[i as int]),
                    ));
                }
            }
            i = i + 1;
        }
        assert(all.take(i as int) =~= all);
    }

    /// Removes outputs and their heads. The result holds what clients are told of every head
    /// that goes, output by output.
    pub fn remove_heads(&mut self, outputs: &Vec<u64>) -> (r: Vec<FinishedHead>)
        ensures
            final(self)@ == old(self)@.without_outputs(outputs@),
            finished_views(r@) == finish_all(heads_of(old(self)@.heads, outputs@)),
    {
        let ghost all = self@.heads;
        let mut finished: Vec<FinishedHead> = Vec::new();
        let mut seen: Vec<u64> = Vec::new();
        assert(outputs@.take(0) =~= Seq::<u64>::empty());
        assert(finished_views(finished@) =~= finish_all(heads_of(all, outputs@.take(0))));
        while seen.len() < outputs.len()
            invariant
                *self == *old(self),
                all == self@.heads,
                seen@.len() <= outputs@.len(),
                seen@ == outputs@.take(seen@.len() as int),
                finished_views(finished@) == finish_all(heads_of(all, seen@)),
            decreases outputs@.len() - seen@.len(),
        {
            let output: u64 = outputs[seen.len()];
            let ghost before = seen@;
            if !lists::contains(&seen, output) {
                self.finish_output(output, &mut finished);
            }
            seen.push(output);
            proof {
                assert(seen@ =~= outputs@.take(seen@.len() as int));
                assert(seen@.drop_last() =~= before);
                let listed = heads_of(all, before);
                let more = all.filter(of_output(output));
                assert(finish_all(listed + more) =~= finish_all(listed) + finish_all(more));
            }
        }
        assert(outputs@.take(seen@.len() as int) =~= outputs@);
        retain_heads(&mut self.heads, &HeadFilter::OutputStays(outputs));
        self.outputs = lists::remove_all(&self.outputs, outputs);
        finished
    }

    /// Starts a new state. Every client is then told of every output, and of the new serial.
    pub fn update(&mut self) -> (r: u32)
        requires
            old(self)@.serial < u32::MAX,
        ensures
            r == old(self)@.serial + 1,
            final(self)@ == (ConfigurationView { serial: r, ..old(self)@ }),
    {
        self.serial_counter = self.serial_counter + 1;
        self.serial_counter
    }

    /// Takes in a client's manager object. The client is then told of every output, and of the
    /// serial.
    pub fn bind(&mut self, manager: u64) -> (r: u32)
        ensures
            r == old(self)@.serial,
            final(self)@ == (ConfigurationView {
                managers: old(self)@.managers.push(manager),
                ..old(self)@
            }),
    {
        self.managers.push(manager);
        self.serial_counter
    }

    /// Forgets a client's manager object, with its heads.
    pub fn stop(&mut self, manager: u64)
        ensures
            final(self)@ == (ConfigurationView {
                managers: lists::without(old(self)@.managers, manager),
                heads: old(self)@.heads.filter(of_other_manager(manager)),
                ..old(self)@
            }),
    {
        self.managers = lists::remove_value(&self.managers, manager);
        retain_heads(&mut self.heads, &HeadFilter::OtherManager(manager));
    }

    /// Forgets a head that a client is done with.
    pub fn release_head(&mut self, obj: u64)
        ensures
            final(self)@ == (ConfigurationView {
                heads: old(self)@.heads.filter(other_head(obj)),
                ..old(self)@
            }),
    {
        retain_heads(&mut self.heads, &HeadFilter::OtherHead(obj));
    }

    /// Forgets a mode of a head that a client is done with.
    pub fn release_mode(&mut self, obj: u64, mode: OutputMode)
        ensures
            final(self)@ == (ConfigurationView {
                heads: old(self)@.heads.map_values(without_mode(obj, mode)),
                ..old(self)@
            }),
    {
        let ghost all = self@.heads;
        let ghost f = without_mode(obj, mode);
        let mut i: usize = 0;
        while i < self.heads.len()
            invariant
                f == without_mode(obj, mode),
                all == old(self)@.heads,
                self.heads@.len() == all.len(),
                i <= self.heads@.len(),
                self@ == (ConfigurationView { heads: self@.heads, ..old(self)@ }),
                forall|k: int| 0 <= k < i ==> (#[trigger] self.heads@[k])@ == f(all[k]),
                forall|k: int| i <= k < all.len() ==> (#[trigger] self.heads@[k])@ == all[k],
            decreases self.heads@.len() - i,
        {
            if self.heads[i].obj == obj {
                let head = self.heads.remove(i);
                let modes = drop_mode(&head.modes, mode);
                self.heads.insert(
                    i,
                    OutputHeadInstance {
                        manager: head.manager,
                        obj: head.obj,
                        output: head.output,
                        modes,
                    },
                );
            }
            i = i + 1;
        }
        assert(self@.heads =~= all.map_values(f));
    }

    /// Whether a client has a head for the output.
    pub fn has_head(&self, manager: u64, output: u64) -> (r: bool)
        ensures
            r == self@.head_place(manager, output) is Some,
    {
        self.find_head(manager, output).is_some()
    }

    fn find_head(&self, manager: u64, output: u64) -> (r: Option<usize>)
        ensures
            match r {
                Some(i) => self@.head_place(manager, output) == Some(i as int) && i
                    < self@.heads.len() && self@.heads[i as int].manager == manager
                    && self@.heads[i as int].output == output,
                None => self@.head_place(manager, output) is None,
            },
    {
        let ghost p = stands_for(self@.heads, manager, output);
        let mut i: usize = 0;
        while i < self.heads.len()
            invariant
                i <= self@.heads.len(),
                p == stands_for(self@.heads, manager, output),
                forall|j: int| 0 <= j < i ==> !(#[trigger] p(j)),
            decreases self@.heads.len() - i,
        {
            if self.heads[i].manager == manager && self.heads[i].output == output {
                proof {
                    search::lemma_is_first_below(self@.heads.len(), p, i as int);
                }
                return Some(i);
            }
            i = i + 1;
        }
        proof {
            search::lemma_none_below(self@.heads.len(), p);
        }
        None
    }

    /// The output that a head stands for.
    pub fn output_of(&self, obj: u64) -> (r: Option<u64>)
        ensures
            r == self@.output_of(obj),
    {
        let ghost p = object_is(self@.heads, obj);
        let mut i: usize = 0;
        while i < self.heads.len()
            invariant
                i <= self@.heads.len(),
                p == object_is(self@.heads, obj),
                forall|j: int| 0 <= j < i ==> !(#[trigger] p(j)),
            decreases self@.heads.len() - i,
        {
            if self.heads[i].obj == obj {
                proof {
                    search::lemma_is_first_below(self@.heads.len(), p, i as int);
                }
                return Some(self.heads[i].output);
            }
            i = i + 1;
        }
        proof {
            search::lemma_none_below(self@.heads.len(), p);
        }
        None
    }

    /// Tells a client of an output. `new_head` is the object to use where the client has no
    /// head for the output, and `can_create` is whether mode objects can be made.
    pub fn send_head_to_client(
        &mut self,
        manager: u64,
        info: &HeadInfo,
        version: u32,
        new_head: Option<u64>,
        can_create: bool,
    ) -> (r: Vec<HeadEvent>)
        ensures
            final(self)@ == old(self)@.told(manager, info@, version, new_head, can_create).0,
            r@ == old(self)@.told(manager, info@, version, new_head, can_create).1,
    {
        let mut events: Vec<HeadEvent> = Vec::new();
        let ghost none = Seq::<OutputMode>::empty();
        match self.find_head(manager, info.output) {
            Some(i) => {
                let head = self.heads.remove(i);
                let ghost known = head.modes@;
                push_opening(&mut events, info, false);
                let kept = drop_modes(&mut events, &head.modes, &info.modes);
                let modes = tell_modes(&mut events, kept, info, can_create);
                push_closing(&mut events, info, version);
                let next = OutputHeadInstance {
                    manager: head.manager,
                    obj: head.obj,
                    output: head.output,
                    modes,
                };
                self.heads.insert(i, next);
                proof {
                    assert(self@.heads =~= old(self)@.heads.update(i as int, next@));
                    assert(events@ =~= head_events(known, info@, version, false, can_create));
                }
            },
            None => {
                match new_head {
                    Some(obj) => {
                        let unknown: Vec<OutputMode> = Vec::new();
                        push_opening(&mut events, info, true);
                        let kept = drop_modes(&mut events, &unknown, &info.modes);
                        let modes = tell_modes(&mut events, kept, info, can_create);
                        push_closing(&mut events, info, version);
                        let head = OutputHeadInstance {
                            manager,
                            obj,
                            output: info.output,
                            modes,
                        };
                        self.heads.push(head);
                        proof {
                            assert(unknown@ =~= none);
                            assert(self@.heads =~= old(self)@.heads.push(head@));
                            assert(events@ =~= head_events(none, info@, version, true, can_create));
                        }
                    },
                    None => {},
                }
            },
        }
        events
    }

    /// Starts a configuration, and whether it is out of date already.
    pub fn create_configuration(&self, serial: u32) -> (r: (PendingConfigurationInner, bool))
        ensures
            r.0@ == (PendingView { serial, used: false, heads: Seq::empty() }),
            r.1 == (serial != self@.serial),
    {
        (PendingConfigurationInner::new(serial), serial != self.serial_counter)
    }

    /// Starts to use a configuration, for a test or in earnest. It can be used once.
    pub fn use_configuration(&self, pending: &mut PendingConfigurationInner) -> (r: Use)
        ensures
            final(pending)@ == (PendingView { used: true, ..old(pending)@ }),
            match r {
                Use::AlreadyUsed => old(pending)@.used,
                Use::Cancelled => !old(pending)@.used && old(pending)@.serial != self@.serial,
                Use::InvalidMode => !old(pending)@.used && old(pending)@.serial == self@.serial
                    && resolved(self@, old(pending)@.heads) is None,
                Use::Ready(configs) => !old(pending)@.used && old(pending)@.serial == self@.serial
                    && resolved(self@, old(pending)@.heads) == Some(configs@),
            },
    {
        if pending.used {
            return Use::AlreadyUsed;
        }
        pending.used = true;
        if pending.serial != self.serial_counter {
            return Use::Cancelled;
        }
        let ghost heads = pending@.heads;
        let mut configs: Vec<(u64, OutputConfiguration)> = Vec::new();
        let mut i: usize = 0;
        proof {
            assert(heads.take(0) =~= Seq::<
                (u64, Option<PendingOutputConfigurationInner>),
            >::empty());
        }
        while i < pending.heads.len()
            invariant
                heads == pending@.heads,
                pending@ == (PendingView { used: true, ..old(pending)@ }),
                !old(pending)@.used,
                old(pending)@.serial == self@.serial,
                i <= heads.len(),
                resolved(self@, heads.take(i as int)) == Some(configs@),
            decreases heads.len() - i,
        {
            let (head, settings) = pending.heads[i];
            proof {
                assert(heads.take(i + 1).drop_last() =~= heads.take(i as int));
                assert(heads.take(i + 1).last() == (head, settings));
            }
            match self.output_of(head) {
                Some(output) => {
                    let wanted = match settings {
                        Some(settings) => settings.finish(),
                        None => OutputConfiguration::Disabled,
                    };
                    configs.push((output, wanted));
                },
                None => {
                    proof {
                        lemma_unresolved(self@, heads, i + 1);
                    }
                    return Use::InvalidMode;
                },
            }
            i = i + 1;
        }
        proof {
            assert(heads.take(i as int) =~= heads);
        }
        Use::Ready(configs)
    }
}

proof fn lemma_unresolved(
    state: ConfigurationView,
    heads: Seq<(u64, Option<PendingOutputConfigurationInner>)>,
    k: int,
)
    requires
        0 <= k <= heads.len(),
        resolved(state, heads.take(k)) is None,
    ensures
        resolved(state, heads) is None,
    decreases heads.len() - k,
{
    if k < heads.len() {
        assert(heads.take(k + 1).drop_last() =~= heads.take(k));
        lemma_unresolved(state, heads, k + 1);
    } else {
        assert(heads.take(k) =~= heads);
    }
}

proof fn lemma_told_members(
    known: Seq<OutputMode>,
    info: HeadInfoView,
    n: nat,
    m: OutputMode,
)
    requires
        n <= info.modes.len(),
    ensures
        told_modes(known, info, n, true).0.contains(m) <==> known.contains(m) || info.modes.take(
            n as int,
        ).contains(m),
    decreases n,
{
    let front = info.modes.take(n as int);
    if n > 0 {
        lemma_told_members(known, info, (n - 1) as nat, m);
        let before = told_modes(known, info, (n - 1) as nat, true).0;
        let after = told_modes(known, info, n, true).0;
        let less = info.modes.take(n - 1);
        let mode = info.modes[n - 1];
        assert(front =~= less.push(mode));
        lemma_push_contains(less, mode, m);
        lemma_push_contains(before, mode, m);
    }
}

proof fn lemma_push_contains(s: Seq<OutputMode>, x: OutputMode, m: OutputMode)
    ensures
        s.push(x).contains(m) <==> s.contains(m) || x == m,
{
    if s.contains(m) {
        let k = choose|k: int| 0 <= k < s.len() && s[k] == m;
        assert(s.push(x)[k] == m);
    }
    if x == m {
        assert(s.push(x)[s.len() as int] == m);
    }
    if s.push(x).contains(m) {
        let k = choose|k: int| 0 <= k < s.push(x).len() && s.push(x)[k] == m;
        if k < s.len() {
            assert(s[k] == m);
        }
    }
}

/// A client that was told of an output knows of the output's modes and of no others.
pub proof fn law_client_knows_modes(known: Seq<OutputMode>, info: HeadInfoView, m: OutputMode)
    ensures
        modes_after(known, info, true).contains(m) <==> info.modes.contains(m),
{
    broadcast use vstd::seq_lib::group_filter_ensures;

    let kept = known.filter(among(info.modes));
    lemma_told_members(kept, info, info.modes.len(), m);
    assert(info.modes.take(info.modes.len() as int) =~= info.modes);
    if kept.contains(m) {
        let k = choose|k: int| 0 <= k < kept.len() && kept[k] == m;
        assert(among(info.modes)(kept[k]));
    }
}

proof fn lemma_nothing_new(known: Seq<OutputMode>, info: HeadInfoView, n: nat)
    requires
        n <= info.modes.len(),
        forall|m: OutputMode| info.modes.contains(m) ==> known.contains(m),
    ensures
        told_modes(known, info, n, true).0 == known,
        forall|i: int|
            0 <= i < told_modes(known, info, n, true).1.len() ==> (#[trigger] told_modes(
                known,
                info,
                n,
                true,
            ).1[i]) is CurrentMode,
    decreases n,
{
    if n > 0 {
        lemma_nothing_new(known, info, (n - 1) as nat);
        assert(info.modes.contains(info.modes[n - 1]));
    }
}

/// A client that is told of an output a second time is told of no mode coming or going.
pub proof fn law_told_twice(known: Seq<OutputMode>, info: HeadInfoView)
    ensures
        ({
            let once = modes_after(known, info, true);
            &&& modes_after(once, info, true) == once
            &&& once.filter(gone_from(info.modes)).len() == 0
            &&& forall|i: int|
                0 <= i < told_modes(once, info, info.modes.len(), true).1.len() ==> (
                #[trigger] told_modes(once, info, info.modes.len(), true).1[i]) is CurrentMode
        }),
{
    broadcast use vstd::seq_lib::group_filter_ensures;

    let once = modes_after(known, info, true);
    let stays = among(info.modes);
    let goes = gone_from(info.modes);
    assert forall|m: OutputMode| info.modes.contains(m) implies once.contains(m) by {
        law_client_knows_modes(known, info, m);
    }
    assert forall|m: OutputMode| once.contains(m) implies stays(m) by {
        law_client_knows_modes(known, info, m);
    }
    lemma_filter_everything(once, stays);
    if once.filter(goes).len() > 0 {
        let m = once.filter(goes)[0];
        lemma_filter_is_part(once, goes, 0);
        assert(goes(m));
    }
    lemma_nothing_new(once, info, info.modes.len());
}

proof fn lemma_filter_everything(s: Seq<OutputMode>, p: spec_fn(OutputMode) -> bool)
    requires
        forall|m: OutputMode| s.contains(m) ==> p(m),
    ensures
        s.filter(p) == s,
    decreases s.len(),
{
    reveal(Seq::filter);
    if s.len() > 0 {
        let t = s.drop_last();
        assert forall|m: OutputMode| t.contains(m) implies p(m) by {
            let k = choose|k: int| 0 <= k < t.len() && t[k] == m;
            assert(s[k] == m);
            assert(s.contains(m));
        }
        lemma_filter_everything(t, p);
        assert(s.contains(s[s.len() - 1]));
        assert(t.push(s.last()) =~= s);
    } else {
        assert(s.filter(p) =~= s);
    }
}

proof fn lemma_filter_is_part(s: Seq<OutputMode>, p: spec_fn(OutputMode) -> bool, i: int)
    requires
        0 <= i < s.filter(p).len(),
    ensures
        s.contains(s.filter(p)[i]),
    decreases s.len(),
{
    reveal(Seq::filter);
    if s.len() > 0 {
        let t = s.drop_last();
        if i < t.filter(p).len() {
            lemma_filter_is_part(t, p, i);
            let m = t.filter(p)[i];
            let k = choose|k: int| 0 <= k < t.len() && t[k] == m;
            assert(s[k] == m);
        } else {
            assert(s[s.len() - 1] == s.filter(p)[i]);
        }
    }
}

/// Each head of a configuration that can be used gives its output, and exactly what the client
/// set, or that the output is to be disabled.
pub proof fn law_configured_as_set(
    state: ConfigurationView,
    heads: Seq<(u64, Option<PendingOutputConfigurationInner>)>,
    i: int,
)
    requires
        resolved(state, heads) is Some,
        0 <= i < heads.len(),
    ensures
        resolved(state, heads).unwrap().len() == heads.len(),
        state.output_of(heads[i].0) == Some(resolved(state, heads).unwrap()[i].0),
        resolved(state, heads).unwrap()[i].1 == (match heads[i].1 {
            Some(settings) => settings.spec_finish(),
            None => OutputConfiguration::Disabled,
        }),
    decreases heads.len(),
{
    lemma_resolved_len(state, heads.drop_last());
    if i < heads.len() - 1 {
        law_configured_as_set(state, heads.drop_last(), i);
        assert(heads.drop_last()[i] == heads[i]);
    }
}

proof fn lemma_resolved_len(
    state: ConfigurationView,
    heads: Seq<(u64, Option<PendingOutputConfigurationInner>)>,
)
    ensures
        resolved(state, heads) matches Some(configs) ==> configs.len() == heads.len(),
    decreases heads.len(),
{
    if heads.len() > 0 {
        lemma_resolved_len(state, heads.drop_last());
    }
}

/// When outputs go, clients are told of exactly the heads that go with them: a head is gone
/// afterwards if it is one of those that clients are told of, and stays if it is not.
pub proof fn law_told_of_what_goes(state: ConfigurationView, gone: Seq<u64>, head: HeadView)
    ensures
        heads_of(state.heads, gone).contains(head) <==> state.heads.contains(head)
            && gone.contains(head.output),
        state.without_outputs(gone).heads.contains(head) <==> state.heads.contains(head)
            && !gone.contains(head.output),
        forall|output: u64| #[trigger]
            state.without_outputs(gone).outputs.contains(output) <==> state.outputs.contains(
                output,
            ) && !gone.contains(output),
    decreases gone.len(),
{
    lemma_heads_filter(state.heads, output_stays(gone), head);
    assert forall|output: u64| #[trigger]
        state.without_outputs(gone).outputs.contains(output) <==> state.outputs.contains(output)
            && !gone.contains(output) by {
        lists::lemma_filter_contains(state.outputs, lists::not_among(gone), output);
    }
    if gone.len() > 0 {
        let rest = gone.drop_last();
        let last = gone.last();
        law_told_of_what_goes(state, rest, head);
        lemma_heads_filter(state.heads, of_output(last), head);
        assert(gone.contains(head.output) <==> rest.contains(head.output) || head.output == last)
            by {
            if gone.contains(head.output) {
                let k = choose|k: int| 0 <= k < gone.len() && gone[k] == head.output;
                if k < rest.len() {
                    assert(rest[k] == head.output);
                }
            }
            if rest.contains(head.output) {
                let k = choose|k: int| 0 <= k < rest.len() && rest[k] == head.output;
                assert(gone[k] == head.output);
            }
            assert(gone[gone.len() - 1] == last);
        }
        let before = heads_of(state.heads, rest);
        let more = state.heads.filter(of_output(last));
        if !rest.contains(last) {
            let all = before + more;
            if all.contains(head) {
                let k = choose|k: int| 0 <= k < all.len() && all[k] == head;
                if k < before.len() {
                    assert(before[k] == head);
                } else {
                    assert(more[k - before.len()] == head);
                }
            }
            if before.contains(head) {
                let k = choose|k: int| 0 <= k < before.len() && before[k] == head;
                assert(all[k] == head);
            }
            if more.contains(head) {
                let k = choose|k: int| 0 <= k < more.len() && more[k] == head;
                assert(all[before.len() + k] == head);
            }
        }
    }
}

/// What occurs among filtered heads occurs among the heads and passes, and the other way round.
proof fn lemma_heads_filter(heads: Seq<HeadView>, p: spec_fn(HeadView) -> bool, head: HeadView)
    ensures
        heads.filter(p).contains(head) <==> heads.contains(head) && p(head),
{
    broadcast use vstd::seq_lib::group_filter_ensures;

    if heads.filter(p).contains(head) {
        let k = choose|k: int| 0 <= k < heads.filter(p).len() && heads.filter(p)[k] == head;
        assert(p(heads.filter(p)[k]));
        lemma_filter_member(heads, p, k);
    }
    if heads.contains(head) && p(head) {
        let k = choose|k: int| 0 <= k < heads.len() && heads[k] == head;
        assert(heads.filter(p).contains(heads[k]));
    }
}

/// Whatever is left of a filtered list was in it.
proof fn lemma_filter_member(heads: Seq<HeadView>, p: spec_fn(HeadView) -> bool, k: int)
    requires
        0 <= k < heads.filter(p).len(),
    ensures
        heads.contains(heads.filter(p)[k]),
    decreases heads.len(),
{
    reveal(Seq::filter);
    if heads.len() > 0 {
        let rest = heads.drop_last();
        if k < rest.filter(p).len() {
            lemma_filter_member(rest, p, k);
            let x = rest.filter(p)[k];
            let i = choose|i: int| 0 <= i < rest.len() && rest[i] == x;
            assert(heads[i] == x);
        } else {
            assert(heads[heads.len() - 1] == heads.filter(p)[k]);
        }
    }
}

/// What a client sets is what is remembered, and nothing else changes: a mode, a size of its own
/// with a refresh rate unless that is zero, a place, a scale, a transform, or whether the rate
/// varies.
pub proof fn law_setting_remembered(p: PendingOutputConfigurationInner, request: HeadRequest)
    requires
        p.refusal(request) is None,
    ensures
        ({
            let q = p.with(request);
            &&& request matches HeadRequest::SetMode(mode) ==> q.mode == Some(
                ModeConfiguration::Mode(mode.unwrap()),
            )
            &&& request matches HeadRequest::SetCustomMode { width, height, refresh } ==> q.mode
                == Some(
                ModeConfiguration::Custom {
                    size: Size { w: width, h: height },
                    refresh: if refresh == 0 {
                        None
                    } else {
                        Some(refresh)
                    },
                },
            )
            &&& request matches HeadRequest::SetPosition { x, y } ==> q.position == Some(
                Point { x, y },
            )
            &&& request matches HeadRequest::SetScale(scale) ==> q.scale == Some(scale)
            &&& request matches HeadRequest::SetTransform(t) ==> q.transform == t && t is Some
            &&& request matches HeadRequest::SetAdaptiveSync(a) ==> q.adaptive_sync == a
                && a is Some
            &&& !(request is SetMode || request is SetCustomMode) ==> q.mode == p.mode
            &&& !(request is SetPosition) ==> q.position == p.position
            &&& !(request is SetScale) ==> q.scale == p.scale
            &&& !(request is SetTransform) ==> q.transform == p.transform
            &&& !(request is SetAdaptiveSync) ==> q.adaptive_sync == p.adaptive_sync
        }),
{
}

/// A request is refused if its setting was made before, and else exactly if it names a mode, a
/// transform or a state that is none.
pub proof fn law_refusals(p: PendingOutputConfigurationInner, request: HeadRequest)
    ensures
        ({
            let made = match request {
                HeadRequest::SetMode(_) => p.mode is Some,
                HeadRequest::SetCustomMode { .. } => p.mode is Some,
                HeadRequest::SetPosition { .. } => p.position is Some,
                HeadRequest::SetScale(_) => p.scale is Some,
                HeadRequest::SetTransform(_) => p.transform is Some,
                HeadRequest::SetAdaptiveSync(_) => p.adaptive_sync is Some,
            };
            &&& made ==> p.refusal(request) == Some(HeadError::AlreadySet)
            &&& !made && request == HeadRequest::SetMode(None) ==> p.refusal(request) == Some(
                HeadError::InvalidMode,
            )
            &&& !made && request == HeadRequest::SetTransform(None) ==> p.refusal(request) == Some(
                HeadError::InvalidTransform,
            )
            &&& !made && request == HeadRequest::SetAdaptiveSync(None) ==> p.refusal(request)
                == Some(HeadError::InvalidAdaptiveSyncState)
            &&& !made && request != HeadRequest::SetMode(None) && request
                != HeadRequest::SetTransform(None) && request != HeadRequest::SetAdaptiveSync(None)
                ==> p.refusal(request) is None
        }),
{
}

/// A head that is configured keeps its output on, with exactly what was set.
pub proof fn law_finished_settings(p: PendingOutputConfigurationInner)
    ensures
        match p.spec_finish() {
            OutputConfiguration::Enabled { mode, position, transform, scale, adaptive_sync } => {
                &&& mode == p.mode
                &&& position == p.position
                &&& transform == p.transform
                &&& scale == p.scale
                &&& adaptive_sync == p.adaptive_sync
            },
            OutputConfiguration::Disabled => false,
        },
{
}

/// A configuration can be used exactly if all heads that it names are known.
pub proof fn law_usable_if_known(
    state: ConfigurationView,
    heads: Seq<(u64, Option<PendingOutputConfigurationInner>)>,
)
    ensures
        resolved(state, heads) is Some <==> forall|i: int|
            0 <= i < heads.len() ==> state.output_of((#[trigger] heads[i]).0) is Some,
    decreases heads.len(),
{
    if heads.len() > 0 {
        let rest = heads.drop_last();
        law_usable_if_known(state, rest);
        assert forall|i: int| 0 <= i < rest.len() implies rest[i] == #[trigger] heads[i] by {}
        assert(heads[heads.len() - 1] == heads.last());
        if resolved(state, heads) is Some {
            assert forall|i: int| 0 <= i < heads.len() implies state.output_of(
                (#[trigger] heads[i]).0,
            ) is Some by {
                if i < rest.len() {
                    assert(state.output_of(rest[i].0) is Some);
                }
            }
        } else if resolved(state, rest) is None {
            let i = choose|i: int|
                0 <= i < rest.len() && state.output_of((#[trigger] rest[i]).0) is None;
            assert(state.output_of(heads[i].0) is None);
        } else {
            assert(state.output_of(heads[heads.len() - 1].0) is None);
        }
    }
}

/// A head stands for the output that it was made for; the first of that number counts.
pub proof fn law_output_of_head(state: ConfigurationView, obj: u64, i: int)
    ensures
        0 <= i < state.heads.len() && state.heads[i].obj == obj && (forall|j: int|
            0 <= j < i ==> (#[trigger] state.heads[j]).obj != obj) ==> state.output_of(obj) == Some(
            state.heads[i].output,
        ),
        (forall|j: int| 0 <= j < state.heads.len() ==> (#[trigger] state.heads[j]).obj != obj)
            ==> state.output_of(obj) is None,
{
    let p = object_is(state.heads, obj);
    if 0 <= i < state.heads.len() && state.heads[i].obj == obj && (forall|j: int|
        0 <= j < i ==> (#[trigger] state.heads[j]).obj != obj) {
        assert(p(i));
        assert forall|j: int| 0 <= j < i implies !(#[trigger] p(j)) by {
            assert(state.heads[j].obj != obj);
        }
        search::lemma_is_first_below(state.heads.len(), p, i);
    }
    if forall|j: int| 0 <= j < state.heads.len() ==> (#[trigger] state.heads[j]).obj != obj {
        assert forall|j: int| 0 <= j < state.heads.len() implies !(#[trigger] p(j)) by {
            assert(state.heads[j].obj != obj);
        }
        search::lemma_none_below(state.heads.len(), p);
    }
}

/// What a client is told of an output begins with a new head, if it is one, its name and its
/// description, and its physical size if it has one.
pub proof fn law_opening(info: HeadInfoView, is_new: bool)
    ensures
        ({
            let events = opening_events(info, is_new);
            let n: int = if is_new {
                1
            } else {
                0
            };
            let sized = info.physical_size.w != 0 && info.physical_size.h != 0;
            &&& events.len() == n + 2 + (if sized {
                1int
            } else {
                0
            })
            &&& is_new ==> events[0] == HeadEvent::Announce
            &&& events[n] == HeadEvent::Name
            &&& events[n + 1] == HeadEvent::Description
            &&& sized ==> events[n + 2] == (HeadEvent::PhysicalSize {
                w: info.physical_size.w,
                h: info.physical_size.h,
            })
        }),
{
}

/// What a client is told of an output ends with its being on, its place, transform and scale, then,
/// to clients that know of them, with make, model and serial number as far as they are known, and
/// with the rate, which does not vary.
pub proof fn law_closing(info: HeadInfoView, version: u32)
    ensures
        ({
            let events = closing_events(info, version);
            &&& events.len() >= 4
            &&& events[0] == HeadEvent::Enabled
            &&& events[1] == HeadEvent::Position(info.position)
            &&& events[2] == HeadEvent::Transform(info.transform)
            &&& events[3] == HeadEvent::Scale(info.scale)
            &&& version < 2 ==> events.len() == 4
            &&& events.contains(HeadEvent::Make) <==> version >= 2 && info.make != "Unknown"@
            &&& events.contains(HeadEvent::Model) <==> version >= 2 && info.model != "Unknown"@
            &&& events.contains(HeadEvent::SerialNumber) <==> version >= 2 && info.serial_number
                != "Unknown"@
            &&& events.contains(HeadEvent::AdaptiveSyncDisabled) <==> version >= 4
        }),
{
    let a = seq![
        HeadEvent::Enabled,
        HeadEvent::Position(info.position),
        HeadEvent::Transform(info.transform),
        HeadEvent::Scale(info.scale),
    ];
    let make = event_if(version >= MAKE_SINCE && info.make != "Unknown"@, HeadEvent::Make);
    let model = event_if(version >= MAKE_SINCE && info.model != "Unknown"@, HeadEvent::Model);
    let serial = event_if(
        version >= MAKE_SINCE && info.serial_number != "Unknown"@,
        HeadEvent::SerialNumber,
    );
    let sync = event_if(version >= ADAPTIVE_SYNC_SINCE, HeadEvent::AdaptiveSyncDisabled);
    let events = closing_events(info, version);
    let m1 = 4 + make.len();
    let m2 = m1 + model.len();
    let m3 = m2 + serial.len();
    if make.len() > 0 {
        assert(events[4] == HeadEvent::Make);
    }
    if model.len() > 0 {
        assert(events[m1 as int] == HeadEvent::Model);
    }
    if serial.len() > 0 {
        assert(events[m2 as int] == HeadEvent::SerialNumber);
    }
    if sync.len() > 0 {
        assert(events[m3 as int] == HeadEvent::AdaptiveSyncDisabled);
    }
}

/// A client is told of each mode that is new to it, whether it is the preferred one, and of the mode
/// that is current.
pub proof fn law_mode_told(known: Seq<OutputMode>, info: HeadInfoView, n: nat)
    requires
        0 < n <= info.modes.len(),
    ensures
        ({
            let (before, events) = told_modes(known, info, (n - 1) as nat, true);
            let (after, more) = told_modes(known, info, n, true);
            let mode = info.modes[n - 1];
            let new = !before.contains(mode);
            let current = info.current_mode == Some(mode);
            &&& more.len() == events.len() + (if new {
                1int
            } else {
                0
            }) + (if current {
                1int
            } else {
                0
            })
            &&& new ==> after == before.push(mode) && more[events.len() as int] == (
            HeadEvent::NewMode { mode, preferred: info.preferred_mode == Some(mode) })
            &&& !new ==> after == before
            &&& current ==> more.last() == HeadEvent::CurrentMode(mode)
        }),
        told_modes(known, info, 0, true).0 == known,
{
}

/// A head that goes is told to its client with all its modes before it.
pub proof fn law_head_goes(head: HeadView, i: int)
    ensures
        finish(head).manager == head.manager,
        finish(head).head == head.obj,
        finish(head).events.len() == head.modes.len() + 1,
        finish(head).events.last() == HeadEvent::Finished,
        0 <= i < head.modes.len() ==> finish(head).events[i] == HeadEvent::ModeFinished(
            head.modes[i],
        ),
{
}

/// A client learns of an output under the head that it has for it, or under a new one; the head
/// then has the output's modes. Other heads stay as they are.
pub proof fn law_told_under_head(
    state: ConfigurationView,
    manager: u64,
    info: HeadInfoView,
    version: u32,
    new_head: Option<u64>,
    i: int,
)
    ensures
        ({
            let (t, events) = state.told(manager, info, version, new_head, true);
            let has = |j: int|
                state.heads[j].manager == manager && state.heads[j].output == info.output;
            &&& 0 <= i < state.heads.len() && has(i) && (forall|j: int|
                0 <= j < i ==> !#[trigger] has(j)) ==> {
                &&& t.heads.len() == state.heads.len()
                &&& t.heads[i].manager == manager
                &&& t.heads[i].output == info.output
                &&& t.heads[i].obj == state.heads[i].obj
                &&& t.heads[i].modes == modes_after(state.heads[i].modes, info, true)
                &&& forall|j: int|
                    0 <= j < state.heads.len() && j != i ==> #[trigger] t.heads[j]
                        == state.heads[j]
                &&& events.len() > 0 && events[0] == HeadEvent::Name
            }
            &&& (forall|j: int| 0 <= j < state.heads.len() ==> !#[trigger] has(j)) ==> (
            match new_head {
                Some(obj) => {
                    &&& t.heads.len() == state.heads.len() + 1
                    &&& t.heads.drop_last() == state.heads
                    &&& t.heads.last().manager == manager
                    &&& t.heads.last().obj == obj
                    &&& t.heads.last().output == info.output
                    &&& events.len() > 0 && events[0] == HeadEvent::Announce
                },
                None => t == state && events.len() == 0,
            })
        }),
{
    let has = |j: int|
        state.heads[j].manager == manager && state.heads[j].output == info.output;
    let p = stands_for(state.heads, manager, info.output);
    assert(p =~= has);
    law_opening(info, true);
    law_opening(info, false);
    let t = state.told(manager, info, version, new_head, true).0;
    if 0 <= i < state.heads.len() && has(i) && (forall|j: int| 0 <= j < i ==> !#[trigger] has(j)) {
        search::lemma_is_first_below(state.heads.len(), p, i);
    }
    if forall|j: int| 0 <= j < state.heads.len() ==> !#[trigger] has(j) {
        search::lemma_none_below(state.heads.len(), p);
        if new_head is Some {
            assert(t.heads.drop_last() =~= state.heads);
        }
    }
}

} // verus!
