//! Displays and connectors: which connector is driven by which CRTC, names, modes and the
//! primary GPU.

use vstd::prelude::*;

use crate::utils::search;
use crate::utils::text;

verus! {

/// A connector as it was found, with the CRTC that drives it now.
#[derive(Debug, Clone, Copy, PartialEq, Eq, Structural)]
pub struct ProbedConnector {
    pub handle: u32,
    pub connected: bool,
    pub crtc: Option<u32>,
}

/// A connector and the CRTCs that can drive it, encoder by encoder.
pub struct ListedConnector {
    pub handle: u32,
    pub connected: bool,
    pub candidates: Vec<u32>,
}

/// A connector and the CRTCs that can drive it.
pub ghost struct ListedView {
    pub handle: u32,
    pub connected: bool,
    pub candidates: Seq<u32>,
}

impl View for ListedConnector {
    type V = ListedView;

    open spec fn view(&self) -> ListedView {
        ListedView {
            handle: self.handle,
            connected: self.connected,
            candidates: self.candidates@,
        }
    }
}

/// The connectors, as mathematical values.
pub open spec fn listed_views(list: Seq<ListedConnector>) -> Seq<ListedView> {
    Seq::new(list.len(), |i: int| list[i]@)
}

/// Whether the entry at a place is the connector's.
pub open spec fn entry_is(config: Seq<(u32, Option<u32>)>, conn: u32) -> spec_fn(int) -> bool {
    |i: int| config[i].0 == conn
}

/// Where the connector's entry stands.
pub open spec fn entry_of(config: Seq<(u32, Option<u32>)>, conn: u32) -> Option<int> {
    search::first_below(config.len(), entry_is(config, conn))
}

/// Whether some connector is driven by the CRTC.
pub open spec fn uses_crtc(config: Seq<(u32, Option<u32>)>, crtc: u32) -> bool {
    exists|i: int| 0 <= i < config.len() && (#[trigger] config[i]).1 == Some(crtc)
}

/// The configuration in which the connector is driven by `crtc`.
pub open spec fn assigned(
    config: Seq<(u32, Option<u32>)>,
    conn: u32,
    crtc: Option<u32>,
) -> Seq<(u32, Option<u32>)> {
    match entry_of(config, conn) {
        Some(i) => config.update(i, (conn, crtc)),
        None => config.push((conn, crtc)),
    }
}

/// The mappings that stay: those of the connected connectors that a CRTC drives already.
pub open spec fn kept_mappings(probed: Seq<ProbedConnector>) -> Seq<(u32, Option<u32>)>
    decreases probed.len(),
{
    if probed.len() == 0 {
        Seq::empty()
    } else {
        let before = kept_mappings(probed.drop_last());
        let conn = probed.last();
        if conn.connected && conn.crtc is Some {
            assigned(before, conn.handle, conn.crtc)
        } else {
            before
        }
    }
}

/// Whether the candidate at a place is free.
pub open spec fn is_free(
    config: Seq<(u32, Option<u32>)>,
    candidates: Seq<u32>,
) -> spec_fn(int) -> bool {
    |i: int| !uses_crtc(config, candidates[i])
}

/// The first candidate that drives no connector.
pub open spec fn free_crtc(config: Seq<(u32, Option<u32>)>, candidates: Seq<u32>) -> Option<u32> {
    match search::first_below(candidates.len(), is_free(config, candidates)) {
        Some(i) => Some(candidates[i]),
        None => None,
    }
}

/// The configuration once a connector without a mapping has got its CRTC, or none.
pub open spec fn matched(config: Seq<(u32, Option<u32>)>, conn: ListedView) -> Seq<
    (u32, Option<u32>),
> {
    match free_crtc(config, conn.candidates) {
        Some(crtc) => assigned(config, conn.handle, Some(crtc)),
        None => if entry_of(config, conn.handle) is Some {
            config
        } else {
            config.push((conn.handle, None))
        },
    }
}

/// The configuration: the mappings that stay, then the other connected connectors in order.
pub open spec fn configuration(
    kept: Seq<(u32, Option<u32>)>,
    listed: Seq<ListedView>,
) -> Seq<(u32, Option<u32>)>
    decreases listed.len(),
{
    if listed.len() == 0 {
        kept
    } else {
        let before = configuration(kept, listed.drop_last());
        let conn = listed.last();
        if conn.connected && entry_of(kept, conn.handle) is None {
            matched(before, conn)
        } else {
            before
        }
    }
}

fn find_entry(config: &Vec<(u32, Option<u32>)>, conn: u32) -> (r: Option<usize>)
    ensures
        match r {
            Some(i) => entry_of(config@, conn) == Some(i as int) && i < config@.len(),
            None => entry_of(config@, conn) is None,
        },
{
    let ghost p = entry_is(config@, conn);
    let mut i: usize = 0;
    while i < config.len()
        invariant
            i <= config@.len(),
            p == entry_is(config@, conn),
            forall|j: int| 0 <= j < i ==> !(#[trigger] p(j)),
        decreases config@.len() - i,
    {
        if config[i].0 == conn {
            proof {
                search::lemma_is_first_below(config@.len(), p, i as int);
            }
            return Some(i);
        }
        i = i + 1;
    }
    proof {
        search::lemma_none_below(config@.len(), p);
    }
    None
}

fn assign(config: &mut Vec<(u32, Option<u32>)>, conn: u32, crtc: Option<u32>)
    ensures
        final(config)@ == assigned(old(config)@, conn, crtc),
{
    match find_entry(config, conn) {
        Some(i) => {
            config.set(i, (conn, crtc));
        },
        None => {
            config.push((conn, crtc));
        },
    }
}

fn crtc_in_use(config: &Vec<(u32, Option<u32>)>, crtc: u32) -> (r: bool)
    ensures
        r == uses_crtc(config@, crtc),
{
    let mut i: usize = 0;
    while i < config.len()
        invariant
            i <= config@.len(),
            forall|j: int| 0 <= j < i ==> (#[trigger] config@[j]).1 != Some(crtc),
        decreases config@.len() - i,
    {
        match config[i].1 {
            Some(other) => {
                if other == crtc {
                    assert(config@[i as int].1 == Some(crtc));
                    return true;
                }
            },
            None => {},
        }
        i = i + 1;
    }
    false
}

fn find_free(config: &Vec<(u32, Option<u32>)>, candidates: &Vec<u32>) -> (r: Option<u32>)
    ensures
        r == free_crtc(config@, candidates@),
{
    let ghost p = is_free(config@, candidates@);
    let mut i: usize = 0;
    while i < candidates.len()
        invariant
            i <= candidates@.len(),
            p == is_free(config@, candidates@),
            forall|j: int| 0 <= j < i ==> !(#[trigger] p(j)),
        decreases candidates@.len() - i,
    {
        if !crtc_in_use(config, candidates[i]) {
            proof {
                search::lemma_is_first_below(candidates@.len(), p, i as int);
            }
            return Some(candidates[i]);
        }
        i = i + 1;
    }
    proof {
        search::lemma_none_below(candidates@.len(), p);
    }
    None
}

/// Decides which CRTC drives which connector. Mappings that are there stay, so that nothing
/// flickers; each other connected connector gets the first candidate that is free, or none.
pub fn display_configuration(
    probed: &Vec<ProbedConnector>,
    listed: &Vec<ListedConnector>,
) -> (r: Vec<(u32, Option<u32>)>)
    ensures
        r@ == configuration(kept_mappings(probed@), listed_views(listed@)),
{
    let mut kept: Vec<(u32, Option<u32>)> = Vec::new();
    let mut config: Vec<(u32, Option<u32>)> = Vec::new();
    let mut i: usize = 0;
    proof {
        assert(probed@.take(0) =~= Seq::<ProbedConnector>::empty());
    }
    while i < probed.len()
        invariant
            i <= probed@.len(),
            kept@ == kept_mappings(probed@.take(i as int)),
            config@ == kept@,
        decreases probed@.len() - i,
    {
        let conn = probed[i];
        proof {
            assert(probed@.take(i + 1).drop_last() =~= probed@.take(i as int));
        }
        if conn.connected && conn.crtc.is_some() {
            assign(&mut kept, conn.handle, conn.crtc);
            assign(&mut config, conn.handle, conn.crtc);
        }
        i = i + 1;
    }
    let ghost views = listed_views(listed@);
    proof {
        assert(probed@.take(i as int) =~= probed@);
        assert(views.take(0) =~= Seq::<ListedView>::empty());
    }
    let mut k: usize = 0;
    while k < listed.len()
        invariant
            k <= listed@.len(),
            views == listed_views(listed@),
            kept@ == kept_mappings(probed@),
            config@ == configuration(kept@, views.take(k as int)),
        decreases listed@.len() - k,
    {
        proof {
            assert(views.take(k + 1).drop_last() =~= views.take(k as int));
            assert(views[k as int] == listed@[k as int]@);
        }
        if listed[k].connected && find_entry(&kept, listed[k].handle).is_none() {
            match find_free(&config, &listed[k].candidates) {
                Some(crtc) => {
                    assign(&mut config, listed[k].handle, Some(crtc));
                },
                None => {
                    if find_entry(&config, listed[k].handle).is_none() {
                        config.push((listed[k].handle, None));
                    }
                },
            }
        }
        k = k + 1;
    }
    proof {
        assert(views.take(k as int) =~= views);
    }
    config
}

/// Whether no connector has two entries.
pub open spec fn one_entry_each(config: Seq<(u32, Option<u32>)>) -> bool {
    forall|i: int, j: int|
        0 <= i < j < config.len() ==> (#[trigger] config[i]).0 != (#[trigger] config[j]).0
}

/// Whether no CRTC drives two connectors.
pub open spec fn crtcs_distinct(config: Seq<(u32, Option<u32>)>) -> bool {
    forall|i: int, j: int|
        0 <= i < j < config.len() && (#[trigger] config[i]).1 is Some ==> config[i].1 != (
        #[trigger] config[j]).1
}

/// Whether the connector has an entry.
pub open spec fn has_entry(config: Seq<(u32, Option<u32>)>, conn: u32) -> bool {
    exists|i: int| 0 <= i < config.len() && (#[trigger] config[i]).0 == conn
}

proof fn lemma_entry_of(config: Seq<(u32, Option<u32>)>, conn: u32)
    ensures
        match entry_of(config, conn) {
            Some(i) => 0 <= i < config.len() && config[i].0 == conn,
            None => !has_entry(config, conn),
        },
{
    let p = entry_is(config, conn);
    search::lemma_first_below(config.len(), p);
    if entry_of(config, conn) is None {
        assert forall|i: int| 0 <= i < config.len() implies (#[trigger] config[i]).0 != conn by {
            assert(!p(i));
        }
    }
}

proof fn lemma_assigned(config: Seq<(u32, Option<u32>)>, conn: u32, crtc: Option<u32>)
    ensures
        one_entry_each(config) ==> one_entry_each(assigned(config, conn, crtc)),
        crtcs_distinct(config) && (crtc matches Some(c) ==> !uses_crtc(config, c))
            ==> crtcs_distinct(assigned(config, conn, crtc)),
        has_entry(assigned(config, conn, crtc), conn),
        forall|other: u32|
            has_entry(config, other) ==> #[trigger] has_entry(assigned(config, conn, crtc), other),
        assigned(config, conn, crtc).len() >= config.len(),
        forall|i: int|
            0 <= i < config.len() && (#[trigger] config[i]).0 != conn ==> assigned(
                config,
                conn,
                crtc,
            )[i] == config[i],
{
    lemma_entry_of(config, conn);
    let next = assigned(config, conn, crtc);
    match entry_of(config, conn) {
        Some(i) => {
            assert(next[i].0 == conn);
        },
        None => {
            assert(next[config.len() as int].0 == conn);
        },
    }
    assert forall|other: u32| has_entry(config, other) implies #[trigger] has_entry(
        next,
        other,
    ) by {
        let i = choose|i: int| 0 <= i < config.len() && (#[trigger] config[i]).0 == other;
        assert(next[i].0 == other);
    }
    if entry_of(config, conn) is None && one_entry_each(config) {
        assert forall|i: int, j: int| 0 <= i < j < next.len() implies (#[trigger] next[i]).0 != (
        #[trigger] next[j]).0 by {
            assert(config[i].0 != conn);
            if j < config.len() {
                assert(config[j].0 == next[j].0);
            }
        }
    }
    if crtcs_distinct(config) && (crtc matches Some(c) ==> !uses_crtc(config, c)) {
        assert forall|i: int, j: int|
            0 <= i < j < next.len() && (#[trigger] next[i]).1 is Some implies next[i].1 != (
        #[trigger] next[j]).1 by {
            if next[i].1 == next[j].1 {
                let c = next[i].1.unwrap();
                let at = match entry_of(config, conn) {
                    Some(k) => k,
                    None => config.len() as int,
                };
                if i == at {
                    assert(config[j].1 == Some(c));
                    assert(uses_crtc(config, c));
                } else if j == at {
                    assert(config[i].1 == Some(c));
                    assert(uses_crtc(config, c));
                } else {
                    assert(config[i].1 == config[j].1);
                }
            }
        }
    }
}

proof fn lemma_kept_entries(probed: Seq<ProbedConnector>)
    ensures
        one_entry_each(kept_mappings(probed)),
    decreases probed.len(),
{
    if probed.len() > 0 {
        lemma_kept_entries(probed.drop_last());
        let before = kept_mappings(probed.drop_last());
        lemma_assigned(before, probed.last().handle, probed.last().crtc);
    }
}

proof fn lemma_matched(config: Seq<(u32, Option<u32>)>, conn: ListedView)
    ensures
        one_entry_each(config) ==> one_entry_each(matched(config, conn)),
        crtcs_distinct(config) ==> crtcs_distinct(matched(config, conn)),
        has_entry(matched(config, conn), conn.handle),
        forall|other: u32|
            has_entry(config, other) ==> #[trigger] has_entry(matched(config, conn), other),
        matched(config, conn).len() >= config.len(),
        forall|i: int|
            0 <= i < config.len() && (#[trigger] config[i]).0 != conn.handle ==> matched(
                config,
                conn,
            )[i] == config[i],
{
    lemma_entry_of(config, conn.handle);
    search::lemma_first_below(conn.candidates.len(), is_free(config, conn.candidates));
    match free_crtc(config, conn.candidates) {
        Some(crtc) => {
            assert(!uses_crtc(config, crtc));
            lemma_assigned(config, conn.handle, Some(crtc));
        },
        None => {
            if entry_of(config, conn.handle) is None {
                assert(matched(config, conn) == assigned(config, conn.handle, None));
                lemma_assigned(config, conn.handle, None);
            }
        },
    }
}

proof fn lemma_configuration(kept: Seq<(u32, Option<u32>)>, listed: Seq<ListedView>)
    ensures
        one_entry_each(kept) ==> one_entry_each(configuration(kept, listed)),
        crtcs_distinct(kept) ==> crtcs_distinct(configuration(kept, listed)),
        forall|other: u32|
            has_entry(kept, other) ==> #[trigger] has_entry(configuration(kept, listed), other),
        configuration(kept, listed).len() >= kept.len(),
        forall|i: int|
            0 <= i < kept.len() ==> #[trigger] configuration(kept, listed)[i] == kept[i],
    decreases listed.len(),
{
    if listed.len() > 0 {
        lemma_configuration(kept, listed.drop_last());
        let before = configuration(kept, listed.drop_last());
        let conn = listed.last();
        lemma_matched(before, conn);
        lemma_entry_of(kept, conn.handle);
        if conn.connected && entry_of(kept, conn.handle) is None {
            assert forall|i: int| 0 <= i < kept.len() implies #[trigger] configuration(
                kept,
                listed,
            )[i] == kept[i] by {
                assert(kept[i].0 != conn.handle);
                assert(before[i] == kept[i]);
            }
        }
    }
}

proof fn lemma_every_connected(kept: Seq<(u32, Option<u32>)>, listed: Seq<ListedView>, k: int)
    requires
        0 <= k < listed.len(),
        listed[k].connected,
    ensures
        has_entry(configuration(kept, listed), listed[k].handle),
    decreases listed.len(),
{
    let rest = listed.drop_last();
    let before = configuration(kept, rest);
    let conn = listed.last();
    lemma_matched(before, conn);
    lemma_entry_of(kept, conn.handle);
    lemma_configuration(kept, rest);
    if k < listed.len() - 1 {
        lemma_every_connected(kept, rest, k);
        assert(rest[k] == listed[k]);
    } else if entry_of(kept, conn.handle) is Some {
        let i = entry_of(kept, conn.handle).unwrap();
        assert(kept[i].0 == conn.handle);
        assert(has_entry(kept, conn.handle));
    }
}

/// Every connected connector has an entry in the configuration, and none has two.
pub proof fn law_configuration_complete(
    probed: Seq<ProbedConnector>,
    listed: Seq<ListedView>,
    k: int,
)
    requires
        0 <= k < listed.len(),
        listed[k].connected,
    ensures
        has_entry(configuration(kept_mappings(probed), listed), listed[k].handle),
        one_entry_each(configuration(kept_mappings(probed), listed)),
{
    lemma_kept_entries(probed);
    lemma_configuration(kept_mappings(probed), listed);
    lemma_every_connected(kept_mappings(probed), listed, k);
}

/// Where no CRTC drove two connectors before, none does after.
pub proof fn law_configuration_keeps_crtcs_distinct(
    probed: Seq<ProbedConnector>,
    listed: Seq<ListedView>,
)
    requires
        crtcs_distinct(kept_mappings(probed)),
    ensures
        crtcs_distinct(configuration(kept_mappings(probed), listed)),
{
    lemma_configuration(kept_mappings(probed), listed);
}

/// What drove a connected connector before still drives it.
pub proof fn law_configuration_keeps_mappings(
    probed: Seq<ProbedConnector>,
    listed: Seq<ListedView>,
    i: int,
)
    requires
        0 <= i < kept_mappings(probed).len(),
    ensures
        configuration(kept_mappings(probed), listed)[i] == kept_mappings(probed)[i],
{
    lemma_configuration(kept_mappings(probed), listed);
}

/// The kind of a connector.
#[derive(Debug, Clone, Copy, PartialEq, Eq, Structural)]
pub enum Interface {
    Unknown,
    VGA,
    DVII,
    DVID,
    DVIA,
    Composite,
    SVideo,
    LVDS,
    Component,
    NinePinDIN,
    DisplayPort,
    HDMIA,
    HDMIB,
    TV,
    EmbeddedDisplayPort,
    Virtual,
    DSI,
    DPI,
    Writeback,
    SPI,
    USB,
}

/// The short name of a kind of connector; `Unknown` for the kinds that have none.
pub open spec fn short_name(interface: Interface) -> Seq<char> {
    match interface {
        Interface::DVII => "DVI-I"@,
        Interface::DVID => "DVI-D"@,
        Interface::DVIA => "DVI-A"@,
        Interface::Composite => "Composite"@,
        Interface::SVideo => "S-VIDEO"@,
        Interface::LVDS => "LVDS"@,
        Interface::Component => "Component"@,
        Interface::NinePinDIN => "DIN"@,
        Interface::DisplayPort => "DP"@,
        Interface::HDMIA => "HDMI-A"@,
        Interface::HDMIB => "HDMI-B"@,
        Interface::TV => "TV"@,
        Interface::EmbeddedDisplayPort => "eDP"@,
        Interface::Virtual => "Virtual"@,
        Interface::DSI => "DSI"@,
        Interface::DPI => "DPI"@,
        Interface::Writeback => "Writeback"@,
        Interface::SPI => "SPI"@,
        Interface::Unknown | Interface::VGA | Interface::USB => "Unknown"@,
    }
}

/// The short name of a kind of connector.
pub fn interface_short_name(interface: Interface) -> (r: &'static str)
    ensures
        r@ == short_name(interface),
{
    match interface {
        Interface::DVII => "DVI-I",
        Interface::DVID => "DVI-D",
        Interface::DVIA => "DVI-A",
        Interface::Composite => "Composite",
        Interface::SVideo => "S-VIDEO",
        Interface::LVDS => "LVDS",
        Interface::Component => "Component",
        Interface::NinePinDIN => "DIN",
        Interface::DisplayPort => "DP",
        Interface::HDMIA => "HDMI-A",
        Interface::HDMIB => "HDMI-B",
        Interface::TV => "TV",
        Interface::EmbeddedDisplayPort => "eDP",
        Interface::Virtual => "Virtual",
        Interface::DSI => "DSI",
        Interface::DPI => "DPI",
        Interface::Writeback => "Writeback",
        Interface::SPI => "SPI",
        Interface::Unknown | Interface::VGA | Interface::USB => "Unknown",
    }
}

/// The name of a connector: its kind, a hyphen and its number among those of the kind.
pub fn interface_name(interface: Interface, interface_id: u32) -> (r: String)
    ensures
        r@ == short_name(interface) + "-"@ + text::decimal(interface_id as nat),
{
    let mut name = String::from_str(interface_short_name(interface));
    name.append("-");
    let number = text::decimal_text(interface_id as u64);
    name.append(number.as_str());
    name
}

/// Two connectors of one kind with different numbers have different names.
pub proof fn law_interface_names_distinct(interface: Interface, a: u32, b: u32)
    requires
        a != b,
    ensures
        short_name(interface) + "-"@ + text::decimal(a as nat) != short_name(interface) + "-"@
            + text::decimal(b as nat),
{
    let front = short_name(interface) + "-"@;
    let left = front + text::decimal(a as nat);
    let right = front + text::decimal(b as nat);
    if left == right {
        assert(left.skip(front.len() as int) =~= text::decimal(a as nat));
        assert(right.skip(front.len() as int) =~= text::decimal(b as nat));
        text::law_decimal_injective(a as nat, b as nat);
    }
}

/// What a display says of itself.
pub struct EdidInfo {
    make: Option<String>,
    model: Option<String>,
    serial: Option<String>,
}

/// What a display says of itself, as texts.
pub ghost struct EdidView {
    pub make: Option<Seq<char>>,
    pub model: Option<Seq<char>>,
    pub serial: Option<Seq<char>>,
}

impl View for EdidInfo {
    type V = EdidView;

    closed spec fn view(&self) -> EdidView {
        EdidView {
            make: text::string_of(self.make),
            model: text::string_of(self.model),
            serial: text::string_of(self.serial),
        }
    }
}

impl EdidInfo {
    /// The maker's name.
    pub fn make(&self) -> (r: Option<String>)
        ensures
            text::string_of(r) == self@.make,
    {
        match &self.make {
            Some(name) => Some(name.clone()),
            None => None,
        }
    }

    /// The model's name.
    pub fn model(&self) -> (r: Option<String>)
        ensures
            text::string_of(r) == self@.model,
    {
        match &self.model {
            Some(name) => Some(name.clone()),
            None => None,
        }
    }

    /// The serial number.
    pub fn serial(&self) -> (r: Option<String>)
        ensures
            text::string_of(r) == self@.serial,
    {
        match &self.serial {
            Some(name) => Some(name.clone()),
            None => None,
        }
    }
}

/// What is known of a display: nothing, as its data is not read.
pub fn edid_info() -> (r: EdidInfo)
    ensures
        r@ == (EdidView { make: None, model: None, serial: None }),
{
    EdidInfo { make: None, model: None, serial: None }
}

/// A text, or `Unknown` where there is none.
pub open spec fn or_unknown(name: Option<Seq<char>>) -> Seq<char> {
    match name {
        Some(name) => name,
        None => "Unknown"@,
    }
}

/// The text, or `Unknown` where there is none.
pub fn name_or_unknown(name: Option<String>) -> (r: String)
    ensures
        r@ == or_unknown(text::string_of(name)),
{
    match name {
        Some(name) => name,
        None => String::from_str("Unknown"),
    }
}

/// The refresh rate in thousandths of a hertz: the pixel clock, in kilohertz, over the pixels
/// of a frame, blanking and all, rounded to the nearest in the last step. Only the low 32 bits
/// are kept.
pub open spec fn refresh_rate(clock: u32, htotal: u16, vtotal: u16) -> int {
    ((clock * 1_000_000int / htotal as int + vtotal as int / 2) / vtotal as int) % 0x1_0000_0000
}

/// The refresh rate of a mode, in thousandths of a hertz.
pub fn calculate_refresh_rate(clock: u32, htotal: u16, vtotal: u16) -> (r: u32)
    requires
        htotal > 0,
        vtotal > 0,
    ensures
        r == refresh_rate(clock, htotal, vtotal),
{
    let lines: u64 = clock as u64 * 1_000_000u64 / htotal as u64;
    assert(lines <= clock * 1_000_000) by (nonlinear_arith)
        requires
            lines == clock * 1_000_000int / htotal as int,
            htotal > 0,
    ;
    let refresh: u64 = (lines + vtotal as u64 / 2) / vtotal as u64;
    assert(refresh as u32 == refresh % 0x1_0000_0000) by (bit_vector);
    refresh as u32
}

/// A graphics device, with the contents of its `boot_vga` file where that could be read.
pub struct GpuNode {
    pub node: u64,
    pub boot_vga: Option<String>,
}

/// Whether the file marks the device that the machine booted with.
pub open spec fn boot_flag(contents: Option<Seq<char>>) -> bool {
    contents matches Some(s) && text::parse_i32_spec(text::trimmed(s)) == Some(1i32)
}

/// Whether the device at a place is marked.
pub open spec fn is_marked(nodes: Seq<GpuNode>) -> spec_fn(int) -> bool {
    |i: int| boot_flag(text::string_of(nodes[i].boot_vga))
}

/// The first device that is marked, or else the first device.
pub open spec fn primary_gpu(nodes: Seq<GpuNode>) -> Option<u64> {
    match search::first_below(nodes.len(), is_marked(nodes)) {
        Some(i) => Some(nodes[i].node),
        None => if nodes.len() > 0 {
            Some(nodes[0].node)
        } else {
            None
        },
    }
}

/// Finds the primary device: the first one that the machine booted with, or else the first.
pub fn find_primary_gpu(nodes: &Vec<GpuNode>) -> (r: Option<u64>)
    ensures
        r == primary_gpu(nodes@),
{
    let ghost p = is_marked(nodes@);
    let mut i: usize = 0;
    while i < nodes.len()
        invariant
            i <= nodes@.len(),
            p == is_marked(nodes@),
            forall|j: int| 0 <= j < i ==> !(#[trigger] p(j)),
        decreases nodes@.len() - i,
    {
        let marked = match &nodes[i].boot_vga {
            Some(contents) => match text::parse_i32(text::trim(contents.as_str())) {
                Some(flag) => flag == 1,
                None => false,
            },
            None => false,
        };
        assert(marked == p(i as int));
        if marked {
            proof {
                search::lemma_is_first_below(nodes@.len(), p, i as int);
            }
            return Some(nodes[i].node);
        }
        i = i + 1;
    }
    proof {
        search::lemma_none_below(nodes@.len(), p);
    }
    if nodes.len() > 0 {
        Some(nodes[0].node)
    } else {
        None
    }
}

/// The refresh rate of a mode, in thousandths of a hertz: the pixel clock, which counts
/// kilohertz, over the pixels of a line and the lines of a frame, to the nearest.
pub proof fn law_refresh_rate(clock: u32, htotal: u16, vtotal: u16)
    requires
        htotal > 0,
        vtotal > 0,
        refresh_rate(clock, htotal, vtotal) < 0xffff_ffff,
        (clock * 1_000_000int / htotal as int + vtotal as int / 2) / vtotal as int <= 0xffff_fffe,
    ensures
        ({
            let lines = clock * 1_000_000int / htotal as int;
            let r = refresh_rate(clock, htotal, vtotal);
            &&& lines * htotal <= clock * 1_000_000int < (lines + 1) * htotal
            &&& 2 * r * vtotal <= 2 * lines + vtotal
            &&& 2 * lines < 2 * r * vtotal + vtotal + 2
        }),
{
    let c = clock * 1_000_000int;
    let h = htotal as int;
    let v = vtotal as int;
    let lines = c / h;
    let q = (lines + v / 2) / v;
    assert(lines * h <= c < (lines + 1) * h && lines >= 0) by (nonlinear_arith)
        requires
            h > 0,
            c >= 0,
            lines == c / h,
    ;
    assert(q * v <= lines + v / 2 < (q + 1) * v && q >= 0) by (nonlinear_arith)
        requires
            v > 0,
            lines >= 0,
            q == (lines + v / 2) / v,
    ;
    assert(q % 0x1_0000_0000 == q);
    assert(2 * q * v == 2 * (q * v)) by (nonlinear_arith);
    assert((q + 1) * v == q * v + v) by (nonlinear_arith);
}

/// The primary device is the first whose boot flag is set, or the first of all if none is; there
/// is none without devices.
pub proof fn law_primary_gpu(nodes: Seq<GpuNode>, i: int)
    ensures
        ({
            let set = |j: int| boot_flag(text::string_of(nodes[j].boot_vga));
            &&& 0 <= i < nodes.len() && set(i) && (forall|j: int| 0 <= j < i ==> !#[trigger] set(j))
                ==> primary_gpu(nodes) == Some(nodes[i].node)
            &&& nodes.len() > 0 && (forall|j: int| 0 <= j < nodes.len() ==> !#[trigger] set(j))
                ==> primary_gpu(nodes) == Some(nodes[0].node)
            &&& nodes.len() == 0 ==> primary_gpu(nodes) is None
        }),
{
    let set = |j: int| boot_flag(text::string_of(nodes[j].boot_vga));
    let p = is_marked(nodes);
    assert(p =~= set);
    if 0 <= i < nodes.len() && set(i) && (forall|j: int| 0 <= j < i ==> !#[trigger] set(j)) {
        search::lemma_is_first_below(nodes.len(), p, i);
    }
    if forall|j: int| 0 <= j < nodes.len() ==> !#[trigger] set(j) {
        search::lemma_none_below(nodes.len(), p);
    }
}

/// A connector that had none gets the first of its own CRTCs that no connector uses yet; if there
/// is none, it stays without one.
pub proof fn law_free_crtc(config: Seq<(u32, Option<u32>)>, candidates: Seq<u32>, i: int)
    ensures
        ({
            let used = |c: u32|
                exists|k: int| 0 <= k < config.len() && (#[trigger] config[k]).1 == Some(c);
            &&& 0 <= i < candidates.len() && !used(candidates[i]) && (forall|j: int|
                0 <= j < i ==> used(#[trigger] candidates[j])) ==> free_crtc(config, candidates)
                == Some(candidates[i])
            &&& (forall|j: int| 0 <= j < candidates.len() ==> used(#[trigger] candidates[j]))
                ==> free_crtc(config, candidates) is None
        }),
{
    let p = is_free(config, candidates);
    let used = |c: u32|
        exists|k: int| 0 <= k < config.len() && (#[trigger] config[k]).1 == Some(c);
    if 0 <= i < candidates.len() && !used(candidates[i]) && (forall|j: int|
        0 <= j < i ==> used(#[trigger] candidates[j])) {
        assert(p(i));
        assert forall|j: int| 0 <= j < i implies !(#[trigger] p(j)) by {
            assert(used(candidates[j]));
        }
        search::lemma_is_first_below(candidates.len(), p, i);
    }
    if forall|j: int| 0 <= j < candidates.len() ==> used(#[trigger] candidates[j]) {
        assert forall|j: int| 0 <= j < candidates.len() implies !(#[trigger] p(j)) by {
            assert(used(candidates[j]));
        }
        search::lemma_none_below(candidates.len(), p);
    }
}

/// The connectors that are not connected, or that keep what drives them, change nothing; each
/// other one is given the first CRTC that is free for it, one after the other.
pub proof fn law_configured_in_turn(
    kept: Seq<(u32, Option<u32>)>,
    listed: Seq<ListedView>,
    conn: ListedView,
)
    ensures
        ({
            let before = configuration(kept, listed);
            let after = configuration(kept, listed.push(conn));
            let known = exists|k: int| 0 <= k < kept.len() && (#[trigger] kept[k]).0 == conn.handle;
            let new = forall|k: int|
                0 <= k < before.len() ==> (#[trigger] before[k]).0 != conn.handle;
            &&& !conn.connected || known ==> after == before
            &&& conn.connected && !known && new ==> after == before.push(
                (conn.handle, free_crtc(before, conn.candidates)),
            )
        }),
        configuration(kept, Seq::empty()) == kept,
{
    assert(listed.push(conn).drop_last() =~= listed);
    let before = configuration(kept, listed);
    lemma_entry_of(kept, conn.handle);
    lemma_entry_of(before, conn.handle);
    if exists|k: int| 0 <= k < kept.len() && (#[trigger] kept[k]).0 == conn.handle {
        let k = choose|k: int| 0 <= k < kept.len() && (#[trigger] kept[k]).0 == conn.handle;
        assert(kept[k].0 == conn.handle);
    }
}

/// The names that connectors of the common kinds go by.
pub proof fn law_short_names()
    ensures
        short_name(Interface::DisplayPort) == "DP"@,
        short_name(Interface::EmbeddedDisplayPort) == "eDP"@,
        short_name(Interface::HDMIA) == "HDMI-A"@,
        short_name(Interface::HDMIB) == "HDMI-B"@,
        short_name(Interface::DVID) == "DVI-D"@,
        short_name(Interface::DVII) == "DVI-I"@,
        short_name(Interface::DVIA) == "DVI-A"@,
        short_name(Interface::LVDS) == "LVDS"@,
        short_name(Interface::Virtual) == "Virtual"@,
        short_name(Interface::DSI) == "DSI"@,
        short_name(Interface::DPI) == "DPI"@,
        short_name(Interface::TV) == "TV"@,
        short_name(Interface::SPI) == "SPI"@,
        short_name(Interface::Composite) == "Composite"@,
        short_name(Interface::Component) == "Component"@,
        short_name(Interface::SVideo) == "S-VIDEO"@,
        short_name(Interface::NinePinDIN) == "DIN"@,
        short_name(Interface::Writeback) == "Writeback"@,
        short_name(Interface::Unknown) == "Unknown"@,
        short_name(Interface::VGA) == "Unknown"@,
        short_name(Interface::USB) == "Unknown"@,
{
}

/// A connector keeps the CRTC that drives it if it is connected and has one; any other does not
/// count. The mappings keep the order in which the connectors were found.
pub proof fn law_mappings_kept(probed: Seq<ProbedConnector>, conn: ProbedConnector)
    ensures
        kept_mappings(Seq::empty()).len() == 0,
        ({
            let before = kept_mappings(probed);
            let after = kept_mappings(probed.push(conn));
            let new = forall|k: int|
                0 <= k < before.len() ==> (#[trigger] before[k]).0 != conn.handle;
            &&& !conn.connected || conn.crtc is None ==> after == before
            &&& conn.connected && conn.crtc is Some && new ==> after == before.push(
                (conn.handle, conn.crtc),
            )
            &&& conn.connected && conn.crtc is Some && !new ==> after.len() == before.len()
        }),
{
    let before = kept_mappings(probed);
    assert(probed.push(conn).drop_last() =~= probed);
    let p = entry_is(before, conn.handle);
    search::lemma_first_below(before.len(), p);
    if !(forall|k: int| 0 <= k < before.len() ==> (#[trigger] before[k]).0 != conn.handle) {
        let k = choose|k: int| 0 <= k < before.len() && (#[trigger] before[k]).0 == conn.handle;
        assert(p(k));
    }
}

} // verus!
