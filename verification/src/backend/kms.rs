//! The graphics devices of the session: which there are, which one is the primary one, and
//! which one takes a client's buffer.

use indexmap::IndexMap;
use vstd::prelude::*;

use crate::backend::device::{Device, DeviceView};
use crate::backend::surface;
use crate::utils::search;

verus! {

/// The entries of a map of devices, in insertion order.
pub uninterp spec fn device_entries(m: IndexMap<u64, Device>) -> Seq<(u64, Device)>;

/// Whether the entry at a place is the node's.
pub open spec fn node_is(entries: Seq<(u64, Device)>, node: u64) -> spec_fn(int) -> bool {
    |i: int| entries[i].0 == node
}

/// Where the node's entry stands.
pub open spec fn node_place(entries: Seq<(u64, Device)>, node: u64) -> Option<int> {
    search::first_below(entries.len(), node_is(entries, node))
}

/// `IndexMap::new`: a map without entries.
#[verifier::external_body]
fn devices_new() -> (r: IndexMap<u64, Device>)
    ensures
        device_entries(r) == Seq::<(u64, Device)>::empty(),
{
    IndexMap::new()
}

/// `IndexMap::len`: the number of entries.
#[verifier::external_body]
fn devices_len(m: &IndexMap<u64, Device>) -> (r: usize)
    ensures
        r == device_entries(*m).len(),
{
    m.len()
}

/// `IndexMap::get_index`: the entry at a place, or nothing beyond the last one.
#[verifier::external_body]
fn devices_get_index(m: &IndexMap<u64, Device>, i: usize) -> (r: Option<(&u64, &Device)>)
    ensures
        match r {
            Some(e) => i < device_entries(*m).len() && *e.0 == device_entries(*m)[i as int].0
                && *e.1 == device_entries(*m)[i as int].1,
            None => i >= device_entries(*m).len(),
        },
{
    m.get_index(i)
}

/// `IndexMap::contains_key`: whether the key has an entry.
#[verifier::external_body]
fn devices_contains_key(m: &IndexMap<u64, Device>, node: u64) -> (r: bool)
    ensures
        r == node_place(device_entries(*m), node) is Some,
{
    m.contains_key(&node)
}

/// `IndexMap::insert`: a key that is there keeps its place and gets the new value, a new key
/// goes last.
#[verifier::external_body]
fn devices_insert(m: &mut IndexMap<u64, Device>, node: u64, device: Device)
    ensures
        device_entries(*final(m)) == (match node_place(device_entries(*old(m)), node) {
            Some(i) => device_entries(*old(m)).update(i, (node, device)),
            None => device_entries(*old(m)).push((node, device)),
        }),
{
    m.insert(node, device);
}

/// `IndexMap::shift_remove`: takes the key's entry out, if there is one, and moves those
/// after it up by one place.
#[verifier::external_body]
fn devices_shift_remove(m: &mut IndexMap<u64, Device>, node: u64) -> (r: Option<Device>)
    ensures
        match node_place(device_entries(*old(m)), node) {
            Some(i) => r == Some(device_entries(*old(m))[i].1) && device_entries(*final(m))
                == device_entries(*old(m)).remove(i),
            None => r is None && device_entries(*final(m)) == device_entries(*old(m)),
        },
{
    m.shift_remove(&node)
}

/// How the import of a client's buffer ended on a device.
#[derive(Debug, Clone, Copy, PartialEq, Eq, Structural)]
pub enum ImportAttempt {
    /// It was not tried, as an earlier device took the buffer.
    NotTried,
    /// The device does not know the format.
    Unsupported,
    /// The device refused, with this error.
    Failed(u64),
    /// The device took the buffer.
    Imported,
}

/// Why no device took a client's buffer.
#[derive(Debug, Clone, Copy, PartialEq, Eq, Structural)]
pub enum ImportError {
    /// No device with a rendering context knows the format.
    NoDevice,
    /// The last device that was tried refused, with this error.
    Failed(u64),
}

/// The devices of the session.
pub struct KmsState {
    drm_devices: IndexMap<u64, Device>,
    primary_gpu: Option<u64>,
}

/// The devices of the session, in the order in which they were added.
#[verifier::ext_equal]
pub ghost struct KmsView {
    pub devices: Seq<(u64, DeviceView)>,
    pub primary: Option<u64>,
}

/// What the entries of a map of devices hold.
spec fn entry_views(entries: Seq<(u64, Device)>) -> Seq<(u64, DeviceView)> {
    Seq::new(entries.len(), |i: int| (entries[i].0, entries[i].1@))
}

impl View for KmsState {
    type V = KmsView;

    closed spec fn view(&self) -> KmsView {
        KmsView {
            devices: entry_views(device_entries(self.drm_devices)),
            primary: self.primary_gpu,
        }
    }
}

/// Whether the device at a place is the node's.
pub open spec fn device_is(devices: Seq<(u64, DeviceView)>, node: u64) -> spec_fn(int) -> bool {
    |i: int| devices[i].0 == node
}

/// Where the node's device stands.
pub open spec fn device_place(devices: Seq<(u64, DeviceView)>, node: u64) -> Option<int> {
    search::first_below(devices.len(), device_is(devices, node))
}

/// Whether the device at a place took the buffer.
pub open spec fn took_buffer(
    devices: Seq<(u64, DeviceView)>,
    tried: Seq<ImportAttempt>,
) -> spec_fn(int) -> bool {
    |i: int| devices[i].1.has_egl && tried[i] == ImportAttempt::Imported
}

/// The error of the last device that refused.
pub open spec fn last_refusal(
    devices: Seq<(u64, DeviceView)>,
    tried: Seq<ImportAttempt>,
    n: nat,
) -> ImportError
    decreases n,
{
    if n == 0 {
        ImportError::NoDevice
    } else if devices[n - 1].1.has_egl {
        match tried[n - 1] {
            ImportAttempt::Failed(error) => ImportError::Failed(error),
            _ => last_refusal(devices, tried, (n - 1) as nat),
        }
    } else {
        last_refusal(devices, tried, (n - 1) as nat)
    }
}

/// The surfaces that show an output, over all devices: each with its device and CRTC.
pub open spec fn surfaces_showing(devices: Seq<(u64, DeviceView)>, output: u64) -> Seq<(u64, u32)>
    decreases devices.len(),
{
    if devices.len() == 0 {
        Seq::empty()
    } else {
        let (node, device) = devices.last();
        let crtcs = surface::crtcs_showing(device.managed, output);
        surfaces_showing(devices.drop_last(), output) + Seq::new(
            crtcs.len(),
            |i: int| (node, crtcs[i]),
        )
    }
}

impl KmsView {
    /// Whether the primary device is one of the devices, and there is one unless there are no
    /// devices.
    pub open spec fn primary_valid(self) -> bool {
        match self.primary {
            Some(node) => exists|i: int|
                0 <= i < self.devices.len() && (#[trigger] self.devices[i]).0 == node,
            None => self.devices.len() == 0,
        }
    }

    /// Whether no device occurs twice.
    pub open spec fn nodes_distinct(self) -> bool {
        forall|i: int, j: int|
            0 <= i < j < self.devices.len() ==> (#[trigger] self.devices[i]).0 != (
            #[trigger] self.devices[j]).0
    }

    /// The primary device once `node` is added: the one that is there, or else `node`.
    pub open spec fn primary_with(self, node: u64) -> u64 {
        match self.primary {
            Some(primary) => primary,
            None => node,
        }
    }

    /// The devices with one more.
    pub open spec fn added(self, node: u64, device: DeviceView) -> KmsView {
        KmsView {
            devices: match device_place(self.devices, node) {
                Some(i) => self.devices.update(i, (node, device)),
                None => self.devices.push((node, device)),
            },
            primary: Some(self.primary_with(node)),
        }
    }

    /// The devices with one less. If the primary one goes, the first that is left takes its
    /// place.
    pub open spec fn removed(self, node: u64) -> KmsView {
        match device_place(self.devices, node) {
            Some(i) => {
                let rest = self.devices.remove(i);
                KmsView {
                    devices: rest,
                    primary: if self.primary == Some(node) {
                        if rest.len() > 0 {
                            Some(rest[0].0)
                        } else {
                            None
                        }
                    } else {
                        self.primary
                    },
                }
            },
            None => self,
        }
    }

    /// Which node takes a client's buffer.
    pub open spec fn import(self, tried: Seq<ImportAttempt>) -> Result<u64, ImportError> {
        match search::first_below(self.devices.len(), took_buffer(self.devices, tried)) {
            Some(i) => Ok(self.devices[i].1.render_node),
            None => Err(last_refusal(self.devices, tried, self.devices.len())),
        }
    }
}

proof fn lemma_places_agree(entries: Seq<(u64, Device)>, node: u64)
    ensures
        node_place(entries, node) == device_place(entry_views(entries), node),
        match node_place(entries, node) {
            Some(i) => 0 <= i < entries.len() && entries[i].0 == node,
            None => forall|i: int| 0 <= i < entries.len() ==> (#[trigger] entries[i]).0 != node,
        },
{
    let p = node_is(entries, node);
    let q = device_is(entry_views(entries), node);
    search::lemma_first_below(entries.len(), p);
    match node_place(entries, node) {
        Some(i) => {
            assert(q(i));
            assert forall|j: int| 0 <= j < i implies !(#[trigger] q(j)) by {
                assert(!p(j));
            }
            search::lemma_is_first_below(entries.len(), q, i);
        },
        None => {
            assert forall|j: int| 0 <= j < entries.len() implies !(#[trigger] q(j)) by {
                assert(!p(j));
            }
            search::lemma_none_below(entries.len(), q);
            assert forall|i: int| 0 <= i < entries.len() implies (#[trigger] entries[i]).0
                != node by {
                assert(!p(i));
            }
        },
    }
}

impl KmsState {
    /// A session without devices.
    pub fn new() -> (r: KmsState)
        ensures
            r@ == (KmsView { devices: Seq::empty(), primary: None }),
    {
        let r = KmsState { drm_devices: devices_new(), primary_gpu: None };
        assert(r@.devices =~= Seq::<(u64, DeviceView)>::empty());
        r
    }

    /// How many devices there are.
    pub fn len(&self) -> (r: usize)
        ensures
            r == self@.devices.len(),
    {
        devices_len(&self.drm_devices)
    }

    /// The device at a place, with its node.
    pub fn device_at(&self, i: usize) -> (r: Option<(u64, &Device)>)
        ensures
            match r {
                Some((node, device)) => i < self@.devices.len() && self@.devices[i as int] == (
                    node,
                    device@,
                ),
                None => i >= self@.devices.len(),
            },
    {
        match devices_get_index(&self.drm_devices, i) {
            Some((node, device)) => Some((*node, device)),
            None => None,
        }
    }

    /// The primary device.
    pub fn primary_gpu(&self) -> (r: Option<u64>)
        ensures
            r == self@.primary,
    {
        self.primary_gpu
    }

    /// The primary device once `node` is added.
    pub fn primary_with(&self, node: u64) -> (r: u64)
        ensures
            r == self@.primary_with(node),
    {
        match self.primary_gpu {
            Some(primary) => primary,
            None => node,
        }
    }

    /// Whether a device that turned up is to be initialised: while the session is active, if it
    /// is a graphics device and was not added before.
    pub fn wants_device(&self, session_active: bool, node: Option<u64>) -> (r: bool)
        ensures
            r == (session_active && (node matches Some(n) && device_place(self@.devices, n) is None)),
    {
        match node {
            Some(n) => {
                proof {
                    lemma_places_agree(device_entries(self.drm_devices), n);
                }
                session_active && !devices_contains_key(&self.drm_devices, n)
            },
            None => false,
        }
    }

    /// Adds a device that was initialised. The first device becomes the primary one.
    pub fn device_added(&mut self, node: u64, device: Device)
        ensures
            final(self)@ == old(self)@.added(node, device@),
    {
        let ghost before = device_entries(self.drm_devices);
        proof {
            lemma_places_agree(before, node);
        }
        if self.primary_gpu.is_none() {
            self.primary_gpu = Some(node);
        }
        devices_insert(&mut self.drm_devices, node, device);
        proof {
            let after = device_entries(self.drm_devices);
            match node_place(before, node) {
                Some(i) => {
                    assert(entry_views(after) =~= entry_views(before).update(i, (node, device@)));
                },
                None => {
                    assert(entry_views(after) =~= entry_views(before).push((node, device@)));
                },
            }
        }
    }

    /// Removes a device. Whether it was there.
    pub fn device_removed(&mut self, node: u64) -> (r: bool)
        ensures
            r == device_place(old(self)@.devices, node) is Some,
            final(self)@ == old(self)@.removed(node),
    {
        let ghost before = device_entries(self.drm_devices);
        proof {
            lemma_places_agree(before, node);
        }
        let gone = devices_shift_remove(&mut self.drm_devices, node);
        proof {
            let after = device_entries(self.drm_devices);
            match node_place(before, node) {
                Some(i) => {
                    assert(entry_views(after) =~= entry_views(before).remove(i));
                },
                None => {},
            }
        }
        if gone.is_none() {
            return false;
        }
        let was_primary = match self.primary_gpu {
            Some(primary) => primary == node,
            None => false,
        };
        if was_primary {
            self.primary_gpu = match devices_get_index(&self.drm_devices, 0) {
                Some((first, _)) => Some(*first),
                None => None,
            };
        }
        true
    }

    /// The surfaces that have to draw when an output changes.
    pub fn schedule_render(&self, output: u64) -> (r: Vec<(u64, u32)>)
        ensures
            r@ == surfaces_showing(self@.devices, output),
    {
        let mut list: Vec<(u64, u32)> = Vec::new();
        let mut i: usize = 0;
        let n: usize = devices_len(&self.drm_devices);
        proof {
            assert(self@.devices.take(0) =~= Seq::<(u64, DeviceView)>::empty());
        }
        while i < n
            invariant
                n == self@.devices.len(),
                i <= n,
                list@ == surfaces_showing(self@.devices.take(i as int), output),
            decreases n - i,
        {
            let ghost shown = list@;
            proof {
                assert(self@.devices.take(i + 1).drop_last() =~= self@.devices.take(i as int));
                assert(self@.devices.take(i + 1).last() == self@.devices[i as int]);
            }
            match devices_get_index(&self.drm_devices, i) {
                Some((node, device)) => {
                    let crtcs = device.schedule_render(output);
                    let mut k: usize = 0;
                    while k < crtcs.len()
                        invariant
                            k <= crtcs@.len(),
                            list@ == shown + Seq::new(k as nat, |j: int| (*node, crtcs@[j])),
                        decreases crtcs@.len() - k,
                    {
                        list.push((*node, crtcs[k]));
                        assert(list@ =~= shown + Seq::new(
                            (k + 1) as nat,
                            |j: int| (*node, crtcs@[j]),
                        ));
                        k = k + 1;
                    }
                    assert(list@ =~= shown + Seq::new(
                        crtcs@.len(),
                        |j: int| (*node, crtcs@[j]),
                    ));
                },
                None => {},
            }
            i = i + 1;
        }
        proof {
            assert(self@.devices.take(i as int) =~= self@.devices);
        }
        list
    }

    /// Which node takes a client's buffer: the render node of the first device with a
    /// rendering context that took it. `tried` says how the import ended on each device.
    pub fn dmabuf_imported(&self, tried: &Vec<ImportAttempt>) -> (r: Result<u64, ImportError>)
        requires
            tried@.len() == self@.devices.len(),
        ensures
            r == self@.import(tried@),
    {
        let ghost p = took_buffer(self@.devices, tried@);
        let mut error = ImportError::NoDevice;
        let mut i: usize = 0;
        while i < tried.len()
            invariant
                tried@.len() == self@.devices.len(),
                i <= tried@.len(),
                p == took_buffer(self@.devices, tried@),
                forall|j: int| 0 <= j < i ==> !(#[trigger] p(j)),
                error == last_refusal(self@.devices, tried@, i as nat),
            decreases tried@.len() - i,
        {
            match devices_get_index(&self.drm_devices, i) {
                Some((_, device)) => {
                    assert(self@.devices[i as int].1 == device@);
                    if device.has_egl() {
                        match tried[i] {
                            ImportAttempt::Imported => {
                                proof {
                                    search::lemma_is_first_below(
                                        self@.devices.len(),
                                        p,
                                        i as int,
                                    );
                                }
                                return Ok(device.render_node());
                            },
                            ImportAttempt::Failed(code) => {
                                error = ImportError::Failed(code);
                            },
                            _ => {},
                        }
                    }
                },
                None => {},
            }
            i = i + 1;
        }
        proof {
            search::lemma_none_below(self@.devices.len(), p);
        }
        Err(error)
    }
}

/// Adding a device keeps a primary one, and keeps the devices apart.
pub proof fn law_added_keeps_primary(s: KmsView, node: u64, device: DeviceView)
    requires
        s.primary_valid(),
        s.nodes_distinct(),
    ensures
        s.added(node, device).primary_valid(),
        s.added(node, device).nodes_distinct(),
        s.primary is Some ==> s.added(node, device).primary == s.primary,
{
    let t = s.added(node, device);
    let q = device_is(s.devices, node);
    search::lemma_first_below(s.devices.len(), q);
    match device_place(s.devices, node) {
        Some(i) => {
            assert(q(i));
            assert(t.devices[i].0 == node);
        },
        None => {
            assert forall|j: int| 0 <= j < s.devices.len() implies (#[trigger] s.devices[j]).0
                != node by {
                assert(!q(j));
            }
            assert(t.devices[s.devices.len() as int].0 == node);
        },
    }
    if s.primary is Some {
        let k = choose|k: int|
            0 <= k < s.devices.len() && (#[trigger] s.devices[k]).0 == s.primary.unwrap();
        assert(t.devices[k].0 == s.primary.unwrap());
    }
}

/// Removing a device leaves a primary one, unless no device is left; the primary one changes
/// only if it is the one that goes.
pub proof fn law_removed_keeps_primary(s: KmsView, node: u64)
    requires
        s.primary_valid(),
        s.nodes_distinct(),
    ensures
        s.removed(node).primary_valid(),
        s.removed(node).nodes_distinct(),
        device_place(s.removed(node).devices, node) is None,
        s.primary != Some(node) ==> s.removed(node).primary == s.primary,
{
    let t = s.removed(node);
    let q = device_is(s.devices, node);
    let gone = device_is(t.devices, node);
    search::lemma_first_below(s.devices.len(), q);
    search::lemma_first_below(t.devices.len(), gone);
    match device_place(s.devices, node) {
        Some(i) => {
            assert(q(i));
            assert forall|j: int| 0 <= j < t.devices.len() implies !(#[trigger] gone(j)) by {
                let from = if j < i {
                    j
                } else {
                    j + 1
                };
                assert(t.devices[j] == s.devices[from]);
                assert(s.devices[from].0 != s.devices[i].0);
            }
            search::lemma_none_below(t.devices.len(), gone);
            assert forall|a: int, b: int| 0 <= a < b < t.devices.len() implies (
            #[trigger] t.devices[a]).0 != (#[trigger] t.devices[b]).0 by {
                let x = if a < i {
                    a
                } else {
                    a + 1
                };
                let y = if b < i {
                    b
                } else {
                    b + 1
                };
                assert(s.devices[x].0 != s.devices[y].0);
            }
            if s.primary == Some(node) {
                if t.devices.len() > 0 {
                    assert(t.devices[0].0 == t.primary.unwrap());
                }
            } else {
                let k = choose|k: int|
                    0 <= k < s.devices.len() && (#[trigger] s.devices[k]).0 == s.primary.unwrap();
                let to = if k < i {
                    k
                } else {
                    k - 1
                };
                assert(t.devices[to].0 == s.primary.unwrap());
            }
        },
        None => {},
    }
}

/// A buffer is imported by the first device with a rendering context that takes it. If none does,
/// the error is that of the last such device that refused, or that there is none.
pub proof fn law_import(s: KmsView, tried: Seq<ImportAttempt>, i: int)
    requires
        tried.len() == s.devices.len(),
    ensures
        0 <= i < s.devices.len() && s.devices[i].1.has_egl && tried[i] == ImportAttempt::Imported && (
        forall|j: int|
            0 <= j < i ==> !((#[trigger] s.devices[j]).1.has_egl && tried[j]
                == ImportAttempt::Imported)) ==> s.import(tried) == Ok::<u64, ImportError>(
            s.devices[i].1.render_node,
        ),
        (forall|j: int|
            0 <= j < s.devices.len() ==> !((#[trigger] s.devices[j]).1.has_egl && tried[j]
                == ImportAttempt::Imported)) ==> s.import(tried) is Err,
        0 <= i < s.devices.len() && s.devices[i].1.has_egl && (forall|j: int|
            i < j < s.devices.len() ==> !(#[trigger] s.devices[j]).1.has_egl || !(tried[j] is Failed)) ==> (
        tried[i] matches ImportAttempt::Failed(error) ==> last_refusal(
            s.devices,
            tried,
            s.devices.len(),
        ) == ImportError::Failed(error)),
        (forall|j: int|
            0 <= j < s.devices.len() ==> !(#[trigger] s.devices[j]).1.has_egl || !(tried[j] is Failed))
            ==> last_refusal(s.devices, tried, s.devices.len()) == ImportError::NoDevice,
{
    let p = took_buffer(s.devices, tried);
    if 0 <= i < s.devices.len() && s.devices[i].1.has_egl && tried[i] == ImportAttempt::Imported && (
    forall|j: int|
        0 <= j < i ==> !((#[trigger] s.devices[j]).1.has_egl && tried[j]
            == ImportAttempt::Imported)) {
        assert(p(i));
        assert forall|j: int| 0 <= j < i implies !(#[trigger] p(j)) by {
            assert(!(s.devices[j].1.has_egl && tried[j] == ImportAttempt::Imported));
        }
        search::lemma_is_first_below(s.devices.len(), p, i);
    }
    if forall|j: int|
        0 <= j < s.devices.len() ==> !((#[trigger] s.devices[j]).1.has_egl && tried[j]
            == ImportAttempt::Imported) {
        assert forall|j: int| 0 <= j < s.devices.len() implies !(#[trigger] p(j)) by {
            assert(!(s.devices[j].1.has_egl && tried[j] == ImportAttempt::Imported));
        }
        search::lemma_none_below(s.devices.len(), p);
    }
    lemma_last_refusal(s.devices, tried, s.devices.len(), i);
}

proof fn lemma_last_refusal(
    devices: Seq<(u64, DeviceView)>,
    tried: Seq<ImportAttempt>,
    n: nat,
    i: int,
)
    requires
        n <= devices.len(),
        tried.len() == devices.len(),
    ensures
        0 <= i < n && devices[i].1.has_egl && (forall|j: int|
            i < j < n ==> !(#[trigger] devices[j]).1.has_egl || !(tried[j] is Failed)) ==> (
        tried[i] matches ImportAttempt::Failed(error) ==> last_refusal(devices, tried, n)
            == ImportError::Failed(error)),
        (forall|j: int| 0 <= j < n ==> !(#[trigger] devices[j]).1.has_egl || !(tried[j] is Failed))
            ==> last_refusal(devices, tried, n) == ImportError::NoDevice,
    decreases n,
{
    if n > 0 {
        lemma_last_refusal(devices, tried, (n - 1) as nat, i);
        let d = devices[n - 1];
    }
}

/// A device that is added is filed under its node, in place of what was there or else last; it is
/// the primary one if there was none. A device that is removed leaves the others in order, and
/// if it was the primary one the first of them takes its place.
pub proof fn law_devices_filed(s: KmsView, node: u64, device: DeviceView, i: int)
    requires
        s.nodes_distinct(),
    ensures
        s.primary is None ==> s.added(node, device).primary == Some(node),
        (forall|j: int| 0 <= j < s.devices.len() ==> (#[trigger] s.devices[j]).0 != node)
            ==> s.added(node, device).devices == s.devices.push((node, device)) && s.removed(node)
            == s,
        0 <= i < s.devices.len() && s.devices[i].0 == node ==> {
            &&& s.added(node, device).devices == s.devices.update(i, (node, device))
            &&& s.removed(node).devices == s.devices.remove(i)
            &&& s.primary == Some(node) && s.devices.len() > 1 ==> s.removed(node).primary == Some(
                if i == 0 {
                    s.devices[1].0
                } else {
                    s.devices[0].0
                },
            )
            &&& s.primary == Some(node) && s.devices.len() == 1 ==> s.removed(node).primary is None
        },
{
    let q = device_is(s.devices, node);
    search::lemma_first_below(s.devices.len(), q);
    if 0 <= i < s.devices.len() && s.devices[i].0 == node {
        assert(q(i));
        assert(device_place(s.devices, node) == Some(i)) by {
            let k = device_place(s.devices, node).unwrap();
            if k < i {
                assert(s.devices[k].0 != s.devices[i].0);
            }
        }
    }
    if forall|j: int| 0 <= j < s.devices.len() ==> (#[trigger] s.devices[j]).0 != node {
        assert forall|j: int| 0 <= j < s.devices.len() implies !(#[trigger] q(j)) by {
            assert(s.devices[j].0 != node);
        }
        search::lemma_none_below(s.devices.len(), q);
    }
}

/// The surfaces that show an output are those of each device in order, with the device's node.
pub proof fn law_surfaces_showing(devices: Seq<(u64, DeviceView)>, d: (u64, DeviceView), output: u64, i: int)
    ensures
        surfaces_showing(Seq::empty(), output).len() == 0,
        ({
            let before = surfaces_showing(devices, output);
            let after = surfaces_showing(devices.push(d), output);
            let crtcs = surface::crtcs_showing(d.1.managed, output);
            &&& after.len() == before.len() + crtcs.len()
            &&& 0 <= i < before.len() ==> after[i] == before[i]
            &&& 0 <= i < crtcs.len() ==> after[before.len() + i] == (d.0, crtcs[i])
        }),
{
    assert(devices.push(d).drop_last() =~= devices);
}

} // verus!
