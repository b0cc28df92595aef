//! The devices that can render, and which of them the renderer has taken up.

use vstd::prelude::*;

use crate::utils::lists;

verus! {

/// The devices that can render. A device's renderer waits here until the list of devices is
/// next brought up to date.
pub struct GbmGlowBackend {
    devices: Vec<u64>,
    ready: Vec<u64>,
    needs_enumeration: bool,
}

/// The devices that can render.
#[verifier::ext_equal]
pub ghost struct RenderView {
    /// The devices, in the order in which they were added.
    pub devices: Seq<u64>,
    /// Those whose renderer was not taken up yet.
    pub ready: Seq<u64>,
    /// Whether a list of devices is out of date.
    pub needs_enumeration: bool,
}

impl View for GbmGlowBackend {
    type V = RenderView;

    closed spec fn view(&self) -> RenderView {
        RenderView {
            devices: self.devices@,
            ready: self.ready@,
            needs_enumeration: self.needs_enumeration,
        }
    }
}

/// The devices that are among `devices`.
pub open spec fn known(devices: Seq<u64>) -> spec_fn(u64) -> bool {
    |n: u64| devices.contains(n)
}

/// The devices that are not listed and whose renderer waits.
pub open spec fn to_take(list: Seq<u64>, ready: Seq<u64>) -> spec_fn(u64) -> bool {
    |n: u64| !list.contains(n) && ready.contains(n)
}

impl RenderView {
    /// The devices with one more; its renderer waits.
    pub open spec fn with_node(self, node: u64) -> RenderView {
        if self.devices.contains(node) {
            self
        } else {
            RenderView {
                devices: self.devices.push(node),
                ready: self.ready.push(node),
                needs_enumeration: true,
            }
        }
    }

    /// The devices with one less.
    pub open spec fn without_node(self, node: u64) -> RenderView {
        if self.devices.contains(node) {
            RenderView {
                devices: lists::without(self.devices, node),
                ready: lists::without(self.ready, node),
                needs_enumeration: true,
            }
        } else {
            self
        }
    }

    /// What is left of a list of devices.
    pub open spec fn retained(self, list: Seq<u64>) -> Seq<u64> {
        list.filter(known(self.devices))
    }

    /// The devices that are added to a list of devices.
    pub open spec fn taken(self, list: Seq<u64>) -> Seq<u64> {
        self.devices.filter(to_take(self.retained(list), self.ready))
    }

    /// The list, up to date: what is left of it, then the devices whose renderer waited.
    pub open spec fn listed(self, list: Seq<u64>) -> Seq<u64> {
        self.retained(list) + self.taken(list)
    }

    /// The devices once the list is up to date.
    pub open spec fn after_listing(self, list: Seq<u64>) -> RenderView {
        RenderView {
            ready: lists::without_all(self.ready, self.taken(list)),
            needs_enumeration: false,
            ..self
        }
    }
}

impl Default for GbmGlowBackend {
    fn default() -> (r: GbmGlowBackend)
        ensures
            r@ == (RenderView { devices: Seq::empty(), ready: Seq::empty(), needs_enumeration: true }),
    {
        GbmGlowBackend { devices: Vec::new(), ready: Vec::new(), needs_enumeration: true }
    }
}

impl GbmGlowBackend {
    /// No device occurs twice.
    #[verifier::type_invariant]
    closed spec fn valid(self) -> bool {
        self.devices@.no_duplicates()
    }

    /// No devices, and nothing to bring up to date.
    pub fn new() -> (r: GbmGlowBackend)
        ensures
            r@ == (RenderView {
                devices: Seq::empty(),
                ready: Seq::empty(),
                needs_enumeration: false,
            }),
    {
        GbmGlowBackend { devices: Vec::new(), ready: Vec::new(), needs_enumeration: false }
    }

    /// Adds a device with its renderer, unless it is there already.
    pub fn add_node(&mut self, node: u64)
        ensures
            final(self)@ == old(self)@.with_node(node),
    {
        proof {
            use_type_invariant(&*self);
        }
        if lists::contains(&self.devices, node) {
            return;
        }
        let mut devices = lists::copy_list(&self.devices);
        let mut ready = lists::copy_list(&self.ready);
        devices.push(node);
        ready.push(node);
        *self = GbmGlowBackend { devices, ready, needs_enumeration: true };
    }

    /// Removes a device.
    pub fn remove_node(&mut self, node: u64)
        ensures
            final(self)@ == old(self)@.without_node(node),
    {
        proof {
            use_type_invariant(&*self);
        }
        if !lists::contains(&self.devices, node) {
            return;
        }
        proof {
            lists::lemma_filter_no_duplicates(self.devices@, lists::other_than(node));
        }
        let devices = lists::remove_value(&self.devices, node);
        let ready = lists::remove_value(&self.ready, node);
        *self = GbmGlowBackend { devices, ready, needs_enumeration: true };
    }

    /// Whether a list of devices is out of date.
    pub fn needs_enumeration(&self) -> (r: bool)
        ensures
            r == self@.needs_enumeration,
    {
        self.needs_enumeration
    }

    /// Brings a list of devices up to date: drops those that are gone and adds those whose
    /// renderer waits.
    pub fn enumerate(&mut self, list: &Vec<u64>) -> (r: Vec<u64>)
        ensures
            r@ == old(self)@.listed(list@),
            final(self)@ == old(self)@.after_listing(list@),
    {
        proof {
            use_type_invariant(&*self);
        }
        let ghost before = self@;
        let ghost keep = known(before.devices);
        let mut result: Vec<u64> = Vec::new();
        let mut i: usize = 0;
        assert(list@.take(0).filter(keep) =~= Seq::<u64>::empty()) by {
            reveal(Seq::filter);
        }
        while i < list.len()
            invariant
                i <= list@.len(),
                before.devices == self.devices@,
                keep == known(before.devices),
                result@ == list@.take(i as int).filter(keep),
            decreases list@.len() - i,
        {
            proof {
                lists::lemma_filter_step(list@, keep, i as int);
            }
            if lists::contains(&self.devices, list[i]) {
                result.push(list[i]);
            }
            i = i + 1;
        }
        let ghost retained = result@;
        proof {
            assert(list@.take(i as int) =~= list@);
            assert(retained == before.retained(list@));
        }
        let ghost take = to_take(retained, before.ready);
        let mut taken: Vec<u64> = Vec::new();
        let mut k: usize = 0;
        assert(before.devices.take(0).filter(take) =~= Seq::<u64>::empty()) by {
            reveal(Seq::filter);
        }
        assert(result@ =~= retained + taken@);
        while k < self.devices.len()
            invariant
                k <= self.devices@.len(),
                before == self@,
                before.devices == self.devices@,
                before.ready == self.ready@,
                before.devices.no_duplicates(),
                take == to_take(retained, before.ready),
                taken@ == before.devices.take(k as int).filter(take),
                result@ == retained + taken@,
            decreases self.devices@.len() - k,
        {
            let node: u64 = self.devices[k];
            let ghost had = result@;
            proof {
                lists::lemma_filter_step(before.devices, take, k as int);
                let front = before.devices.take(k as int);
                lists::lemma_filter_contains(front, take, node);
                if front.contains(node) {
                    let j = choose|j: int| 0 <= j < front.len() && front[j] == node;
                    assert(before.devices[j] == before.devices[k as int]);
                }
                assert(result@.contains(node) == retained.contains(node)) by {
                    if result@.contains(node) {
                        let j = choose|j: int| 0 <= j < result@.len() && result@[j] == node;
                        if j < retained.len() {
                            assert(retained[j] == node);
                        } else {
                            assert(taken@[j - retained.len()] == node);
                            assert(taken@.contains(node));
                        }
                    }
                    if retained.contains(node) {
                        let j = choose|j: int| 0 <= j < retained.len() && retained[j] == node;
                        assert(result@[j] == node);
                    }
                }
            }
            if !lists::contains(&result, node) && lists::contains(&self.ready, node) {
                result.push(node);
                taken.push(node);
            }
            assert(result@ =~= retained + taken@);
            k = k + 1;
        }
        proof {
            assert(before.devices.take(k as int) =~= before.devices);
        }
        let ready = lists::remove_all(&self.ready, &taken);
        let devices = lists::copy_list(&self.devices);
        *self = GbmGlowBackend { devices, ready, needs_enumeration: false };
        result
    }
}

/// An up-to-date list holds known devices only, and every one whose renderer waited.
pub proof fn law_listed(s: RenderView, list: Seq<u64>, n: u64)
    ensures
        s.listed(list).contains(n) <==> s.devices.contains(n) && (list.contains(n)
            || s.ready.contains(n)),
{
    let kept = s.retained(list);
    let taken = s.taken(list);
    let all = s.listed(list);
    lists::lemma_filter_contains(list, known(s.devices), n);
    lists::lemma_filter_contains(s.devices, to_take(kept, s.ready), n);
    if all.contains(n) {
        let j = choose|j: int| 0 <= j < all.len() && all[j] == n;
        if j < kept.len() {
            assert(kept[j] == n);
        } else {
            assert(taken[j - kept.len()] == n);
        }
    }
    if kept.contains(n) {
        let j = choose|j: int| 0 <= j < kept.len() && kept[j] == n;
        assert(all[j] == n);
    }
    if taken.contains(n) {
        let j = choose|j: int| 0 <= j < taken.len() && taken[j] == n;
        assert(all[kept.len() + j] == n);
    }
}

/// Bringing a list up to date twice does what once does.
pub proof fn law_listing_idempotent(s: RenderView, list: Seq<u64>)
    ensures
        s.after_listing(list).listed(s.listed(list)) == s.listed(list),
        s.after_listing(list).after_listing(s.listed(list)) == s.after_listing(list),
{
    let t = s.after_listing(list);
    let once = s.listed(list);
    let keep = known(s.devices);
    assert forall|n: u64| once.contains(n) implies keep(n) by {
        law_listed(s, list, n);
    }
    lists::lemma_filter_all(once, keep);
    assert(t.retained(once) == once);
    let take = to_take(once, t.ready);
    assert(t.taken(once) =~= Seq::<u64>::empty()) by {
        let taken = t.devices.filter(take);
        if taken.len() > 0 {
            let n = taken[0];
            assert(taken.contains(n));
            lists::lemma_filter_contains(t.devices, take, n);
            lists::lemma_filter_contains(s.ready, lists::not_among(s.taken(list)), n);
            law_listed(s, list, n);
        }
    }
    assert(t.listed(once) =~= once);
    assert(t.after_listing(once) =~= t) by {
        let gone = t.taken(once);
        assert forall|n: u64| t.ready.contains(n) implies lists::not_among(gone)(n) by {
            assert(!gone.contains(n));
        }
        lists::lemma_filter_all(t.ready, lists::not_among(gone));
    }
}

/// A device that is added is known and waits for a renderer, once; one that is removed is neither.
/// Both ask for the list to be brought up to date, and the other devices stay as they are.
pub proof fn law_nodes(s: RenderView, node: u64, other: u64)
    requires
        other != node,
    ensures
        s.with_node(node).devices.contains(node),
        !s.devices.contains(node) ==> s.with_node(node).ready.contains(node) && s.with_node(
            node,
        ).needs_enumeration,
        s.devices.contains(node) ==> s.with_node(node) == s,
        s.with_node(node).devices.contains(other) <==> s.devices.contains(other),
        !s.without_node(node).devices.contains(node),
        s.devices.contains(node) ==> !s.without_node(node).ready.contains(node) && s.without_node(
            node,
        ).needs_enumeration,
        !s.devices.contains(node) ==> s.without_node(node) == s,
        s.without_node(node).devices.contains(other) <==> s.devices.contains(other),
        s.without_node(node).ready.contains(other) <==> s.ready.contains(other),
{
    let p = lists::other_than(node);
    lists::lemma_filter_contains(s.devices, p, node);
    lists::lemma_filter_contains(s.devices, p, other);
    lists::lemma_filter_contains(s.ready, p, node);
    lists::lemma_filter_contains(s.ready, p, other);
    let d = s.devices.push(node);
    assert(d[d.len() - 1] == node);
    let r = s.ready.push(node);
    assert(r[r.len() - 1] == node);
    if s.devices.contains(other) {
        let k = choose|k: int| 0 <= k < s.devices.len() && s.devices[k] == other;
        assert(d[k] == other);
    }
    if d.contains(other) {
        let k = choose|k: int| 0 <= k < d.len() && d[k] == other;
        assert(s.devices[k] == other);
    }
}

/// The devices that were listed stay in front, in their order; those that are added come behind.
/// Once the list is up to date no more is to be listed, and what was added waits no more.
pub proof fn law_listing(s: RenderView, list: Seq<u64>, i: int, n: u64)
    ensures
        ({
            let kept = s.retained(list).len() as int;
            let all = s.listed(list);
            &&& 0 <= kept <= all.len()
            &&& 0 <= i < kept ==> list.contains(all[i]) && s.devices.contains(all[i])
            &&& kept <= i < all.len() ==> s.ready.contains(all[i]) && !list.contains(all[i])
        }),
        (forall|x: u64| list.contains(x) ==> s.devices.contains(x)) && s.ready.len() == 0
            ==> s.listed(list) == list,
        !s.after_listing(list).needs_enumeration,
        s.after_listing(list).devices == s.devices,
        s.after_listing(list).ready.contains(n) <==> s.ready.contains(n) && !s.taken(list).contains(n),
{
    let kept = s.retained(list);
    let taken = s.taken(list);
    let all = s.listed(list);
    if 0 <= i < kept.len() {
        assert(kept.contains(kept[i]));
        lists::lemma_filter_contains(list, known(s.devices), kept[i]);
        assert(all[i] == kept[i]);
    }
    if kept.len() <= i < all.len() {
        let x = all[i];
        assert(taken[i - kept.len()] == x);
        assert(taken.contains(x));
        lists::lemma_filter_contains(s.devices, to_take(kept, s.ready), x);
        lists::lemma_filter_contains(list, known(s.devices), x);
    }
    if (forall|x: u64| list.contains(x) ==> s.devices.contains(x)) && s.ready.len() == 0 {
        lists::lemma_filter_all(list, known(s.devices));
        lists::lemma_filter_none(s.devices, to_take(kept, s.ready));
        assert(all =~= list);
    }
    lists::lemma_filter_contains(s.ready, lists::not_among(taken), n);
}

} // verus!
