//! Virtual outputs: logical screens that split or merge physical ones.

use indexmap::IndexMap;
use vstd::prelude::*;

use crate::shell::output::{
    find_output, law_identity_scale, law_lookup, law_scaled_length, logical_length, lookup_output,
    output_views, Output, OutputView,
};
use crate::shell::workspace::WorkspaceId;
use crate::utils::coordinates::GlobalRect;
use crate::utils::geometry::{
    clamp_i32, max_i32, max_int, min_i32, min_int, saturating_difference, saturating_sum, Point,
    Rectangle, Size,
};
use crate::utils::text::{
    law_signed_round_trip, lemma_signed_text_chars, lemma_split_joined, lemma_split_whole, parse_i32,
    parse_i32_spec, same_text, signed_text, split, split_spec, texts,
};

pub use crate::shell::workspace::VirtualOutputId;

verus! {

/// The insertion-ordered map of the `indexmap` crate.
#[verifier::external_type_specification]
#[verifier::external_body]
#[verifier::reject_recursive_types(K)]
#[verifier::reject_recursive_types(V)]
#[verifier::reject_recursive_types(S)]
pub struct ExIndexMap<K, V, S>(indexmap::IndexMap<K, V, S>);

/// The entries of a configuration, in insertion order: output names, each with the
/// part of the output that is used.
pub uninterp spec fn config_entries(m: IndexMap<String, Rectangle>) -> Seq<(Seq<char>, Rectangle)>;

/// The entries of a map of virtual outputs, in insertion order.
pub uninterp spec fn output_entries(m: IndexMap<u32, VirtualOutput>) -> Seq<(u32, VirtualOutput)>;

/// Place of a name among the entries of a configuration.
pub open spec fn name_position(entries: Seq<(Seq<char>, Rectangle)>, name: Seq<char>) -> Option<int>
    decreases entries.len(),
{
    if entries.len() == 0 {
        None
    } else {
        match name_position(entries.drop_last(), name) {
            Some(i) => Some(i),
            None => if entries.last().0 == name {
                Some(entries.len() - 1)
            } else {
                None
            },
        }
    }
}

/// The entries with a name set to a rectangle: in its place if it is there, else last.
pub open spec fn config_insert(
    entries: Seq<(Seq<char>, Rectangle)>,
    name: Seq<char>,
    rect: Rectangle,
) -> Seq<(Seq<char>, Rectangle)> {
    match name_position(entries, name) {
        Some(i) => entries.update(i, (name, rect)),
        None => entries.push((name, rect)),
    }
}

/// Whether no name occurs twice in a configuration.
pub open spec fn names_once(entries: Seq<(Seq<char>, Rectangle)>) -> bool {
    forall|i: int, j: int|
        0 <= i < j < entries.len() ==> (#[trigger] entries[i]).0 != (#[trigger] entries[j]).0
}

/// `name_position` is the first place of the name, or it does not occur.
proof fn lemma_name_position(entries: Seq<(Seq<char>, Rectangle)>, name: Seq<char>)
    ensures
        match name_position(entries, name) {
            Some(i) => 0 <= i < entries.len() && entries[i].0 == name,
            None => forall|j: int| 0 <= j < entries.len() ==> (#[trigger] entries[j]).0 != name,
        },
    decreases entries.len(),
{
    if entries.len() > 0 {
        let rest = entries.drop_last();
        lemma_name_position(rest, name);
        assert forall|j: int| 0 <= j < rest.len() implies #[trigger] entries[j] == rest[j] by {}
    }
}

/// Setting a name to a rectangle keeps each name from occurring twice.
proof fn lemma_config_insert(entries: Seq<(Seq<char>, Rectangle)>, name: Seq<char>, rect: Rectangle)
    requires
        names_once(entries),
    ensures
        names_once(config_insert(entries, name, rect)),
{
    lemma_name_position(entries, name);
    let after = config_insert(entries, name, rect);
    assert forall|i: int, j: int| 0 <= i < j < after.len() implies (#[trigger] after[i]).0 != (
    #[trigger] after[j]).0 by {
        assert(entries[i].0 == after[i].0);
        if j < entries.len() {
            assert(entries[j].0 == after[j].0);
        }
    }
}

/// Place of a key among the entries of a map of virtual outputs.
pub open spec fn key_position(entries: Seq<(u32, VirtualOutput)>, key: u32) -> Option<int>
    decreases entries.len(),
{
    if entries.len() == 0 {
        None
    } else {
        match key_position(entries.drop_last(), key) {
            Some(i) => Some(i),
            None => if entries.last().0 == key {
                Some(entries.len() - 1)
            } else {
                None
            },
        }
    }
}

/// `IndexMap::new`: a map without entries.
#[verifier::external_body]
fn config_new() -> (r: IndexMap<String, Rectangle>)
    ensures
        config_entries(r) == Seq::<(Seq<char>, Rectangle)>::empty(),
{
    IndexMap::new()
}

/// `IndexMap::insert`: a key that is there keeps its place and gets the new value, a
/// new key goes last.
#[verifier::external_body]
fn config_set(m: &mut IndexMap<String, Rectangle>, name: String, rect: Rectangle)
    ensures
        config_entries(*final(m)) == config_insert(config_entries(*old(m)), name@, rect),
{
    m.insert(name, rect);
}

/// `IndexMap::len`: the number of entries.
#[verifier::external_body]
fn config_len(m: &IndexMap<String, Rectangle>) -> (r: usize)
    ensures
        r == config_entries(*m).len(),
{
    m.len()
}

/// `IndexMap::get_index`: the entry at a place, or nothing beyond the last one.
#[verifier::external_body]
fn config_get_index(m: &IndexMap<String, Rectangle>, i: usize) -> (r: Option<(&String, &Rectangle)>)
    ensures
        match r {
            Some(e) => i < config_entries(*m).len() && e.0@ == config_entries(*m)[i as int].0
                && *e.1 == config_entries(*m)[i as int].1,
            None => i >= config_entries(*m).len(),
        },
{
    m.get_index(i)
}

/// `IndexMap::new`: a map without entries.
#[verifier::external_body]
fn outputs_new() -> (r: IndexMap<u32, VirtualOutput>)
    ensures
        output_entries(r) == Seq::<(u32, VirtualOutput)>::empty(),
{
    IndexMap::new()
}

/// `IndexMap::insert`: a key that is there keeps its place and gets the new value, a
/// new key goes last.
#[verifier::external_body]
fn outputs_set(m: &mut IndexMap<u32, VirtualOutput>, key: u32, value: VirtualOutput)
    ensures
        output_entries(*final(m)) == (match key_position(output_entries(*old(m)), key) {
            Some(i) => output_entries(*old(m)).update(i, (key, value)),
            None => output_entries(*old(m)).push((key, value)),
        }),
{
    m.insert(key, value);
}

/// `IndexMap::len`: the number of entries.
#[verifier::external_body]
fn outputs_len(m: &IndexMap<u32, VirtualOutput>) -> (r: usize)
    ensures
        r == output_entries(*m).len(),
{
    m.len()
}

/// `IndexMap::get_index`: the entry at a place, or nothing beyond the last one.
#[verifier::external_body]
fn outputs_get_index(m: &IndexMap<u32, VirtualOutput>, i: usize) -> (r: Option<
    (&u32, &VirtualOutput),
>)
    ensures
        match r {
            Some(e) => i < output_entries(*m).len() && *e.0 == output_entries(*m)[i as int].0
                && *e.1 == output_entries(*m)[i as int].1,
            None => i >= output_entries(*m).len(),
        },
{
    m.get_index(i)
}

/// `IndexMap::get`: the value of a key, if the key is there.
#[verifier::external_body]
fn outputs_get(m: &IndexMap<u32, VirtualOutput>, key: u32) -> (r: Option<&VirtualOutput>)
    ensures
        match key_position(output_entries(*m), key) {
            Some(i) => r is Some && *r.unwrap() == output_entries(*m)[i].1,
            None => r is None,
        },
{
    m.get(&key)
}

/// `IndexMap::get_mut`: the value of a key, if the key is there; what is written to it
/// stays in the map, and nothing else changes.
#[verifier::external_body]
fn outputs_get_mut(m: &mut IndexMap<u32, VirtualOutput>, key: u32) -> (r: Option<
    &mut VirtualOutput,
>)
    ensures
        match key_position(output_entries(*old(m)), key) {
            Some(i) => r is Some && *r.unwrap() == output_entries(*old(m))[i].1 && output_entries(
                *final(m),
            ) == output_entries(*old(m)).update(i, (key, *final(r.unwrap()))),
            None => r is None && output_entries(*final(m)) == output_entries(*old(m)),
        },
{
    m.get_mut(&key)
}

/// Reference to a physical output: its identity and its name.
#[derive(Debug)]
pub struct OutputRef {
    pub id: u64,
    pub name: String,
}

/// A part of a virtual output that one physical output shows.
#[derive(Debug)]
pub struct VirtualRegion {
    pub physical_output: OutputRef,
    pub logical_rect: GlobalRect,
}

/// What a region holds.
pub struct RegionView {
    pub output: u64,
    pub name: Seq<char>,
    pub rect: GlobalRect,
}

impl View for VirtualRegion {
    type V = RegionView;

    open spec fn view(&self) -> RegionView {
        RegionView {
            output: self.physical_output.id,
            name: self.physical_output.name@,
            rect: self.logical_rect,
        }
    }
}

/// What a list of regions holds.
pub open spec fn region_views(regions: Seq<VirtualRegion>) -> Seq<RegionView> {
    Seq::new(regions.len(), |i: int| regions[i]@)
}

/// The logical rectangle of a part of an output: moved to the output's place, and
/// scaled.
pub open spec fn logical_rect_of(output: OutputView, part: Rectangle) -> GlobalRect {
    GlobalRect(
        Rectangle {
            loc: Point {
                x: logical_length(clamp_i32(part.loc.x + output.position.0.x), output.scale) as i32,
                y: logical_length(clamp_i32(part.loc.y + output.position.0.y), output.scale) as i32,
            },
            size: Size {
                w: logical_length(part.size.w as int, output.scale) as i32,
                h: logical_length(part.size.h as int, output.scale) as i32,
            },
        },
    )
}

/// The region that a part of an output becomes.
pub open spec fn region_of(output: OutputView, part: Rectangle) -> RegionView {
    RegionView { output: output.id, name: output.name, rect: logical_rect_of(output, part) }
}

/// Computes the region that a part of an output becomes.
fn make_region(output: &Output, part: &Rectangle) -> (r: VirtualRegion)
    ensures
        r@ == region_of(output@, *part),
{
    let position = output.position.as_point();
    let x: i32 = output.scale.to_logical(saturating_sum(part.loc.x, position.x));
    let y: i32 = output.scale.to_logical(saturating_sum(part.loc.y, position.y));
    let w: i32 = output.scale.to_logical(part.size.w);
    let h: i32 = output.scale.to_logical(part.size.h);
    VirtualRegion {
        physical_output: OutputRef { id: output.id, name: output.name.clone() },
        logical_rect: GlobalRect(Rectangle { loc: Point { x, y }, size: Size { w, h } }),
    }
}

/// Extreme coordinates of a list of regions: the smallest left and top edge, the
/// largest right and bottom edge.
pub struct Bounds {
    pub min_x: int,
    pub min_y: int,
    pub max_x: int,
    pub max_y: int,
}

/// The extreme coordinates of a list of regions.
pub open spec fn bounds_of(regions: Seq<RegionView>) -> Bounds
    decreases regions.len(),
{
    if regions.len() == 0 {
        Bounds {
            min_x: i32::MAX as int,
            min_y: i32::MAX as int,
            max_x: i32::MIN as int,
            max_y: i32::MIN as int,
        }
    } else {
        let b = bounds_of(regions.drop_last());
        let rect = regions.last().rect.0;
        Bounds {
            min_x: min_int(b.min_x, rect.loc.x as int),
            min_y: min_int(b.min_y, rect.loc.y as int),
            max_x: max_int(b.max_x, rect.right()),
            max_y: max_int(b.max_y, rect.bottom()),
        }
    }
}

/// The smallest rectangle around all regions; none, where nothing bounds it.
pub open spec fn covering_rect(regions: Seq<RegionView>) -> Option<GlobalRect> {
    let b = bounds_of(regions);
    if b.min_x == i32::MAX {
        None
    } else {
        Some(
            GlobalRect(
                Rectangle {
                    loc: Point { x: b.min_x as i32, y: b.min_y as i32 },
                    size: Size {
                        w: clamp_i32(b.max_x - b.min_x) as i32,
                        h: clamp_i32(b.max_y - b.min_y) as i32,
                    },
                },
            ),
        )
    }
}

proof fn lemma_bounds_range(regions: Seq<RegionView>)
    ensures
        i32::MIN <= bounds_of(regions).min_x <= i32::MAX,
        i32::MIN <= bounds_of(regions).min_y <= i32::MAX,
        i32::MIN <= bounds_of(regions).max_x <= i32::MAX,
        i32::MIN <= bounds_of(regions).max_y <= i32::MAX,
    decreases regions.len(),
{
    if regions.len() > 0 {
        lemma_bounds_range(regions.drop_last());
    }
}

/// Computes the smallest rectangle around all regions.
fn cover(regions: &Vec<VirtualRegion>) -> (r: Option<GlobalRect>)
    ensures
        r == covering_rect(region_views(regions@)),
{
    let ghost views = region_views(regions@);
    let mut min_x: i32 = i32::MAX;
    let mut min_y: i32 = i32::MAX;
    let mut max_x: i32 = i32::MIN;
    let mut max_y: i32 = i32::MIN;
    let mut i: usize = 0;
    while i < regions.len()
        invariant
            i <= regions@.len(),
            views == region_views(regions@),
            bounds_of(views.take(i as int)) == (Bounds {
                min_x: min_x as int,
                min_y: min_y as int,
                max_x: max_x as int,
                max_y: max_y as int,
            }),
        decreases regions@.len() - i,
    {
        let rect = regions[i].logical_rect.as_rectangle();
        proof {
            assert(views.take(i + 1).drop_last() =~= views.take(i as int));
            assert(views.take(i + 1).last() == regions@[i as int]@);
        }
        min_x = min_i32(min_x, rect.loc.x);
        min_y = min_i32(min_y, rect.loc.y);
        max_x = max_i32(max_x, saturating_sum(rect.loc.x, rect.size.w));
        max_y = max_i32(max_y, saturating_sum(rect.loc.y, rect.size.h));
        i = i + 1;
    }
    assert(views.take(i as int) =~= views);
    if min_x == i32::MAX {
        None
    } else {
        Some(
            GlobalRect(
                Rectangle {
                    loc: Point { x: min_x, y: min_y },
                    size: Size {
                        w: saturating_difference(max_x, min_x),
                        h: saturating_difference(max_y, min_y),
                    },
                },
            ),
        )
    }
}

proof fn lemma_bounds_cover(regions: Seq<RegionView>, i: int)
    requires
        0 <= i < regions.len(),
    ensures
        bounds_of(regions).min_x <= regions[i].rect.0.loc.x,
        bounds_of(regions).min_y <= regions[i].rect.0.loc.y,
        bounds_of(regions).max_x >= regions[i].rect.0.right(),
        bounds_of(regions).max_y >= regions[i].rect.0.bottom(),
    decreases regions.len(),
{
    if i < regions.len() - 1 {
        lemma_bounds_cover(regions.drop_last(), i);
        assert(regions.drop_last()[i] == regions[i]);
    }
}

/// Whatever lies in a region lies in the covering rectangle.
pub proof fn law_cover_contains_regions(regions: Seq<RegionView>, i: int, p: Point)
    requires
        0 <= i < regions.len(),
        regions[i].rect.0.spec_contains(p),
        bounds_of(regions).max_x - bounds_of(regions).min_x <= i32::MAX,
        bounds_of(regions).max_y - bounds_of(regions).min_y <= i32::MAX,
    ensures
        covering_rect(regions) matches Some(c) && c.0.spec_contains(p),
{
    lemma_bounds_cover(regions, i);
    lemma_bounds_range(regions);
}

/// A logical screen made of parts of physical outputs.
#[derive(Debug)]
pub struct VirtualOutput {
    id: VirtualOutputId,
    config: IndexMap<String, Rectangle>,
    regions: Vec<VirtualRegion>,
    logical_geometry: GlobalRect,
    active_workspace: Option<WorkspaceId>,
}

/// What a virtual output holds.
#[verifier::ext_equal]
pub struct VirtualOutputView {
    pub id: VirtualOutputId,
    pub config: Seq<(Seq<char>, Rectangle)>,
    pub regions: Seq<RegionView>,
    pub geometry: GlobalRect,
    pub active: Option<WorkspaceId>,
}

impl View for VirtualOutput {
    type V = VirtualOutputView;

    closed spec fn view(&self) -> VirtualOutputView {
        VirtualOutputView {
            id: self.id,
            config: config_entries(self.config),
            regions: region_views(self.regions@),
            geometry: self.logical_geometry,
            active: self.active_workspace,
        }
    }
}

/// The regions that a configuration gives on the outputs that are there.
pub open spec fn regions_for(
    config: Seq<(Seq<char>, Rectangle)>,
    outputs: Seq<OutputView>,
) -> Seq<RegionView>
    decreases config.len(),
{
    if config.len() == 0 {
        Seq::empty()
    } else {
        let before = regions_for(config.drop_last(), outputs);
        match lookup_output(outputs, config.last().0) {
            Some(i) => before.push(region_of(outputs[i], config.last().1)),
            None => before,
        }
    }
}

/// A part of an output, as a configuration for merging lists it.
pub open spec fn merge_regions(parts: Seq<(OutputView, Rectangle)>) -> Seq<RegionView> {
    Seq::new(parts.len(), |i: int| region_of(parts[i].0, parts[i].1))
}

/// The configuration that a list of parts becomes.
pub open spec fn merge_config(parts: Seq<(OutputView, Rectangle)>) -> Seq<(Seq<char>, Rectangle)>
    decreases parts.len(),
{
    if parts.len() == 0 {
        Seq::empty()
    } else {
        config_insert(
            merge_config(parts.drop_last()),
            parts.last().0.name,
            parts.last().1,
        )
    }
}

/// What a list of parts holds.
pub open spec fn part_views(parts: Seq<(Output, Rectangle)>) -> Seq<(OutputView, Rectangle)> {
    Seq::new(parts.len(), |i: int| (parts[i].0@, parts[i].1))
}

impl VirtualOutputView {
    /// One part of one output.
    pub open spec fn from_split(id: VirtualOutputId, output: OutputView, part: Rectangle) -> VirtualOutputView {
        VirtualOutputView {
            id,
            config: seq![(output.name, part)],
            regions: seq![region_of(output, part)],
            geometry: logical_rect_of(output, part),
            active: None,
        }
    }

    /// Several parts, under one rectangle around them all.
    pub open spec fn from_merge(id: VirtualOutputId, parts: Seq<(OutputView, Rectangle)>) -> VirtualOutputView {
        VirtualOutputView {
            id,
            config: merge_config(parts),
            regions: merge_regions(parts),
            geometry: match covering_rect(merge_regions(parts)) {
                Some(rect) => rect,
                None => GlobalRect(
                    Rectangle { loc: Point { x: 0, y: 0 }, size: Size { w: 1920, h: 1080 } },
                ),
            },
            active: None,
        }
    }

    /// The virtual output on the outputs that are there now.
    pub open spec fn update(self, outputs: Seq<OutputView>) -> VirtualOutputView {
        let regions = regions_for(self.config, outputs);
        VirtualOutputView {
            regions,
            geometry: match covering_rect(regions) {
                Some(rect) => rect,
                None => self.geometry,
            },
            ..self
        }
    }
}

impl VirtualOutput {
    /// The identifier.
    pub fn id(&self) -> (r: VirtualOutputId)
        ensures
            r == self@.id,
    {
        self.id
    }

    /// The regions, in order.
    pub fn regions(&self) -> (r: &Vec<VirtualRegion>)
        ensures
            region_views(r@) == self@.regions,
    {
        &self.regions
    }

    /// The logical rectangle.
    pub fn logical_geometry(&self) -> (r: GlobalRect)
        ensures
            r == self@.geometry,
    {
        self.logical_geometry
    }

    /// The workspace that is shown, if any.
    pub fn active_workspace(&self) -> (r: Option<WorkspaceId>)
        ensures
            r == self@.active,
    {
        self.active_workspace
    }

    /// Shows a workspace, or none.
    pub(crate) fn set_active_workspace(&mut self, workspace_id: Option<WorkspaceId>)
        ensures
            final(self)@ == (VirtualOutputView { active: workspace_id, ..old(self)@ }),
    {
        self.active_workspace = workspace_id;
    }

    /// A virtual output that shows one part of one physical output.
    pub fn from_split(id: VirtualOutputId, physical_output: &Output, physical_rect: Rectangle) -> (r: VirtualOutput)
        ensures
            r@ == VirtualOutputView::from_split(id, physical_output@, physical_rect),
            names_once(r@.config),
    {
        let region = make_region(physical_output, &physical_rect);
        let logical_geometry = region.logical_rect;
        let mut config = config_new();
        config_set(&mut config, physical_output.name.clone(), physical_rect);
        let mut regions: Vec<VirtualRegion> = Vec::new();
        regions.push(region);
        let r = VirtualOutput { id, config, regions, logical_geometry, active_workspace: None };
        assert(r@ =~= VirtualOutputView::from_split(id, physical_output@, physical_rect));
        r
    }

    /// A virtual output that joins parts of several physical outputs.
    pub fn from_merge(id: VirtualOutputId, regions_config: &Vec<(Output, Rectangle)>) -> (r: VirtualOutput)
        ensures
            r@ == VirtualOutputView::from_merge(id, part_views(regions_config@)),
            names_once(r@.config),
    {
        let ghost parts = part_views(regions_config@);
        let mut config = config_new();
        let mut regions: Vec<VirtualRegion> = Vec::new();
        let mut i: usize = 0;
        while i < regions_config.len()
            invariant
                i <= regions_config@.len(),
                parts == part_views(regions_config@),
                config_entries(config) == merge_config(parts.take(i as int)),
                names_once(config_entries(config)),
                region_views(regions@) == merge_regions(parts.take(i as int)),
            decreases regions_config@.len() - i,
        {
            let (output, part) = &regions_config[i];
            proof {
                assert(parts.take(i + 1).drop_last() =~= parts.take(i as int));
                assert(parts.take(i + 1).last() == (output@, *part));
                lemma_config_insert(config_entries(config), output@.name, *part);
            }
            config_set(&mut config, output.name.clone(), *part);
            let ghost before = regions@;
            regions.push(make_region(output, part));
            proof {
                assert(region_views(regions@) =~= region_views(before).push(
                    region_of(output@, *part),
                ));
                assert(merge_regions(parts.take(i + 1)) =~= merge_regions(
                    parts.take(i as int),
                ).push(region_of(output@, *part)));
            }
            i = i + 1;
        }
        assert(parts.take(i as int) =~= parts);
        let logical_geometry = match cover(&regions) {
            Some(rect) => rect,
            None => GlobalRect(
                Rectangle { loc: Point { x: 0, y: 0 }, size: Size { w: 1920, h: 1080 } },
            ),
        };
        VirtualOutput { id, config, regions, logical_geometry, active_workspace: None }
    }

    /// Drops all regions; `VirtualOutputManager::update_all` finds them again.
    pub fn update_geometry(&mut self)
        ensures
            final(self)@ == (VirtualOutputView {
                regions: Seq::<RegionView>::empty(),
                ..old(self)@
            }),
    {
        self.regions = Vec::new();
        assert(self@.regions =~= Seq::<RegionView>::empty());
    }

    /// Rebuilds the regions on the outputs that are there now.
    fn rebuild(&mut self, outputs: &Vec<Output>)
        ensures
            final(self)@ == old(self)@.update(output_views(outputs@)),
    {
        let ghost views = output_views(outputs@);
        let ghost entries = config_entries(self.config);
        let n: usize = config_len(&self.config);
        let mut regions: Vec<VirtualRegion> = Vec::new();
        let mut i: usize = 0;
        assert(region_views(regions@) =~= regions_for(entries.take(0), views));
        while i < n
            invariant
                i <= n,
                n == entries.len(),
                entries == config_entries(self.config),
                self@ == old(self)@,
                views == output_views(outputs@),
                region_views(regions@) == regions_for(entries.take(i as int), views),
            decreases n - i,
        {
            proof {
                assert(entries.take(i + 1).drop_last() =~= entries.take(i as int));
                assert(entries.take(i + 1).last() == entries[i as int]);
            }
            match config_get_index(&self.config, i) {
                Some((name, part)) => {
                    match find_output(outputs, name.as_str()) {
                        Some(k) => {
                            let ghost before = regions@;
                            regions.push(make_region(&outputs[k], part));
                            assert(region_views(regions@) =~= region_views(before).push(
                                region_of(views[k as int], *part),
                            ));
                        },
                        None => {},
                    }
                },
                None => {},
            }
            i = i + 1;
        }
        assert(entries.take(i as int) =~= entries);
        let geometry = cover(&regions);
        self.regions = regions;
        match geometry {
            Some(rect) => {
                self.logical_geometry = rect;
            },
            None => {},
        }
        assert(self@ =~= old(self)@.update(views));
    }
}

/// How many regions of a virtual output an output of the given name shows.
pub open spec fn regions_on(regions: Seq<RegionView>, name: Seq<char>) -> nat
    decreases regions.len(),
{
    if regions.len() == 0 {
        0
    } else {
        regions_on(regions.drop_last(), name) + (if regions.last().name == name {
            1nat
        } else {
            0
        })
    }
}

/// The virtual outputs with regions on an output of the given name, in order, one
/// entry for each such region.
pub open spec fn shown_on(outputs: Seq<VirtualOutputView>, name: Seq<char>) -> Seq<VirtualOutputView>
    decreases outputs.len(),
{
    if outputs.len() == 0 {
        Seq::empty()
    } else {
        shown_on(outputs.drop_last(), name) + Seq::new(
            regions_on(outputs.last().regions, name),
            |i: int| outputs.last(),
        )
    }
}

/// The identifiers of a list of virtual outputs.
pub open spec fn ids_of(outputs: Seq<VirtualOutputView>) -> Seq<VirtualOutputId> {
    Seq::new(outputs.len(), |i: int| outputs[i].id)
}

/// Whether a virtual output has a region on an output of the given name.
pub open spec fn has_region_on(v: VirtualOutputView, name: Seq<char>) -> bool {
    exists|i: int| 0 <= i < v.regions.len() && (#[trigger] v.regions[i]).name == name
}

/// Whether the virtual outputs have at most one region on each output, and name each output at
/// most once in their configurations.
pub open spec fn each_once(outputs: Seq<VirtualOutputView>) -> bool {
    &&& forall|i: int| 0 <= i < outputs.len() ==> names_once((#[trigger] outputs[i]).config)
    &&& forall|i: int, name: Seq<char>|
        0 <= i < outputs.len() ==> #[trigger] regions_on(outputs[i].regions, name) <= 1
}

/// What a manager holds.
#[verifier::ext_equal]
pub struct ManagerView {
    pub next_id: int,
    pub outputs: Seq<VirtualOutputView>,
}

impl ManagerView {
    /// No virtual outputs.
    pub open spec fn empty() -> ManagerView {
        ManagerView { next_id: 1, outputs: Seq::empty() }
    }

    /// Place of a virtual output in the order.
    pub open spec fn position(self, id: VirtualOutputId) -> Option<int> {
        view_position(self.outputs, id)
    }

    /// The virtual output of an identifier.
    pub open spec fn get(self, id: VirtualOutputId) -> Option<VirtualOutputView> {
        match self.position(id) {
            Some(i) => Some(self.outputs[i]),
            None => None,
        }
    }

    /// The manager with one part of an output as a new virtual output.
    pub open spec fn add_split(self, output: OutputView, part: Rectangle) -> ManagerView {
        ManagerView {
            next_id: self.next_id + 1,
            outputs: self.outputs.push(
                VirtualOutputView::from_split(VirtualOutputId(self.next_id as u32), output, part),
            ),
        }
    }

    /// The manager with a whole output as a new virtual output.
    pub open spec fn create_default(self, output: OutputView) -> ManagerView {
        self.add_split(
            output,
            Rectangle { loc: Point { x: 0, y: 0 }, size: output.mode.unwrap() },
        )
    }

    /// The manager with a workspace shown on a virtual output.
    pub open spec fn set_active(self, id: VirtualOutputId, workspace: Option<WorkspaceId>) -> ManagerView {
        match self.position(id) {
            Some(i) => ManagerView {
                outputs: self.outputs.update(
                    i,
                    VirtualOutputView { active: workspace, ..self.outputs[i] },
                ),
                ..self
            },
            None => self,
        }
    }

    /// All virtual outputs on the outputs that are there now.
    pub open spec fn update_all(self, physical: Seq<OutputView>) -> ManagerView {
        ManagerView {
            outputs: Seq::new(self.outputs.len(), |i: int| self.outputs[i].update(physical)),
            ..self
        }
    }

    /// What one part of the configuration text adds.
    pub open spec fn load_spec(self, spec: Seq<char>, physical: Seq<OutputView>) -> ManagerView {
        match parse_spec(spec) {
            Some((name, part)) => match lookup_output(physical, name) {
                Some(i) => self.add_split(physical[i], part),
                None => self,
            },
            None => self,
        }
    }

    /// What a list of parts of the configuration text adds.
    pub open spec fn load_specs(self, specs: Seq<Seq<char>>, physical: Seq<OutputView>) -> ManagerView
        decreases specs.len(),
    {
        if specs.len() == 0 {
            self
        } else {
            self.load_specs(specs.drop_last(), physical).load_spec(specs.last(), physical)
        }
    }

    /// The whole outputs that are added because the configuration does not mention
    /// them.
    pub open spec fn load_rest(self, specs: Seq<Seq<char>>, physical: Seq<OutputView>, k: int) -> ManagerView
        decreases k,
    {
        if k <= 0 {
            self
        } else {
            let before = self.load_rest(specs, physical, k - 1);
            if mentions(specs, physical[k - 1].name) {
                before
            } else {
                before.create_default(physical[k - 1])
            }
        }
    }

    /// The manager that a configuration text describes.
    pub open spec fn from_config(config: Seq<char>, physical: Seq<OutputView>) -> ManagerView {
        let specs = split_spec(config, ';');
        ManagerView::empty().load_specs(specs, physical).load_rest(
            specs,
            physical,
            physical.len() as int,
        )
    }
}

/// Place of a virtual output in a list.
pub open spec fn view_position(outputs: Seq<VirtualOutputView>, id: VirtualOutputId) -> Option<int>
    decreases outputs.len(),
{
    if outputs.len() == 0 {
        None
    } else {
        match view_position(outputs.drop_last(), id) {
            Some(i) => Some(i),
            None => if outputs.last().id == id {
                Some(outputs.len() - 1)
            } else {
                None
            },
        }
    }
}

/// The rectangle that a text of the form `x,y,widthxheight` denotes.
pub open spec fn parse_rect(text: Seq<char>) -> Option<Rectangle> {
    let parts = split_spec(text, ',');
    if parts.len() != 3 {
        None
    } else {
        let size = split_spec(parts[2], 'x');
        if size.len() != 2 {
            None
        } else {
            match (
                parse_i32_spec(parts[0]),
                parse_i32_spec(parts[1]),
                parse_i32_spec(size[0]),
                parse_i32_spec(size[1]),
            ) {
                (Some(x), Some(y), Some(w), Some(h)) => Some(
                    Rectangle { loc: Point { x, y }, size: Size { w, h } },
                ),
                _ => None,
            }
        }
    }
}

/// The output name and the rectangle that a text of the form `name:rectangle` denotes.
pub open spec fn parse_spec(text: Seq<char>) -> Option<(Seq<char>, Rectangle)> {
    let parts = split_spec(text, ':');
    if parts.len() != 2 {
        None
    } else {
        match parse_rect(parts[1]) {
            Some(rect) => Some((parts[0], rect)),
            None => None,
        }
    }
}

/// Whether one of the parts of the configuration text names the output, well-formed or
/// not.
pub open spec fn mentions(specs: Seq<Seq<char>>, name: Seq<char>) -> bool {
    exists|i: int| 0 <= i < specs.len() && split_spec(#[trigger] specs[i], ':')[0] == name
}

/// Reads a rectangle of the form `x,y,widthxheight`.
pub fn parse_rectangle_spec(spec: &str) -> (r: Option<Rectangle>)
    ensures
        r == parse_rect(spec@),
{
    let parts = split(spec, ',');
    assert(texts(parts@) == split_spec(spec@, ','));
    if parts.len() != 3 {
        return None;
    }
    let size = split(parts[2], 'x');
    assert(texts(parts@)[0] == parts@[0]@ && texts(parts@)[1] == parts@[1]@ && texts(parts@)[2]
        == parts@[2]@);
    if size.len() != 2 {
        return None;
    }
    assert(texts(size@)[0] == size@[0]@ && texts(size@)[1] == size@[1]@);
    match (parse_i32(parts[0]), parse_i32(parts[1]), parse_i32(size[0]), parse_i32(size[1])) {
        (Some(x), Some(y), Some(w), Some(h)) => Some(
            Rectangle { loc: Point { x, y }, size: Size { w, h } },
        ),
        _ => None,
    }
}

/// Which virtual outputs each physical output shows, by output name.
#[derive(Debug)]
struct PhysicalMapping {
    entries: Vec<(String, Vec<VirtualOutputId>)>,
}

/// Place of a name in a mapping.
spec fn mapping_position(entries: Seq<(String, Vec<VirtualOutputId>)>, name: Seq<char>) -> Option<int>
    decreases entries.len(),
{
    if entries.len() == 0 {
        None
    } else {
        match mapping_position(entries.drop_last(), name) {
            Some(i) => Some(i),
            None => if entries.last().0@ == name {
                Some(entries.len() - 1)
            } else {
                None
            },
        }
    }
}

proof fn lemma_mapping_position(entries: Seq<(String, Vec<VirtualOutputId>)>, name: Seq<char>)
    ensures
        match mapping_position(entries, name) {
            Some(i) => 0 <= i < entries.len() && entries[i].0@ == name && forall|j: int|
                0 <= j < i ==> (#[trigger] entries[j]).0@ != name,
            None => forall|j: int| 0 <= j < entries.len() ==> (#[trigger] entries[j]).0@ != name,
        },
    decreases entries.len(),
{
    if entries.len() > 0 {
        let rest = entries.drop_last();
        lemma_mapping_position(rest, name);
        assert forall|j: int| 0 <= j < rest.len() implies #[trigger] entries[j] == rest[j] by {}
    }
}

impl PhysicalMapping {
    spec fn lookup(self, name: Seq<char>) -> Seq<VirtualOutputId> {
        match mapping_position(self.entries@, name) {
            Some(i) => self.entries@[i].1@,
            None => Seq::empty(),
        }
    }

    fn new() -> (r: PhysicalMapping)
        ensures
            forall|name: Seq<char>| #[trigger] r.lookup(name) == Seq::<VirtualOutputId>::empty(),
    {
        PhysicalMapping { entries: Vec::new() }
    }

    fn find(&self, name: &str) -> (r: Option<usize>)
        ensures
            match r {
                Some(i) => mapping_position(self.entries@, name@) == Some(i as int) && i
                    < self.entries@.len() && self.entries@[i as int].0@ == name@,
                None => mapping_position(self.entries@, name@) is None,
            },
    {
        let mut i: usize = 0;
        while i < self.entries.len()
            invariant
                i <= self.entries@.len(),
                forall|j: int| 0 <= j < i ==> (#[trigger] self.entries@[j]).0@ != name@,
            decreases self.entries@.len() - i,
        {
            if same_text(self.entries[i].0.as_str(), name) {
                proof {
                    lemma_mapping_position(self.entries@, name@);
                }
                return Some(i);
            }
            i = i + 1;
        }
        proof {
            lemma_mapping_position(self.entries@, name@);
        }
        None
    }

    /// The virtual outputs that the named output shows.
    fn get(&self, name: &str) -> (r: Vec<VirtualOutputId>)
        ensures
            r@ == self.lookup(name@),
    {
        let mut copy: Vec<VirtualOutputId> = Vec::new();
        match self.find(name) {
            Some(k) => {
                let ids = &self.entries[k].1;
                let mut i: usize = 0;
                while i < ids.len()
                    invariant
                        i <= ids@.len(),
                        copy@ == ids@.take(i as int),
                    decreases ids@.len() - i,
                {
                    copy.push(ids[i]);
                    assert(ids@.take(i + 1) =~= ids@.take(i as int).push(ids@[i as int]));
                    i = i + 1;
                }
                assert(ids@.take(i as int) =~= ids@);
            },
            None => {},
        }
        copy
    }

    /// Adds a virtual output to those that the named output shows.
    fn push(&mut self, name: &String, id: VirtualOutputId)
        ensures
            forall|other: Seq<char>| #[trigger]
                final(self).lookup(other) == (if other == name@ {
                    old(self).lookup(other).push(id)
                } else {
                    old(self).lookup(other)
                }),
    {
        match self.find(name.as_str()) {
            Some(k) => {
                self.entries[k].1.push(id);
                proof {
                    assert forall|other: Seq<char>| #[trigger]
                        self.lookup(other) == (if other == name@ {
                            old(self).lookup(other).push(id)
                        } else {
                            old(self).lookup(other)
                        }) by {
                        lemma_mapping_position(old(self).entries@, other);
                        lemma_mapping_position(self.entries@, other);
                        let a = old(self).entries@;
                        let b = self.entries@;
                        assert forall|j: int| 0 <= j < a.len() implies (#[trigger] a[j]).0@
                            == b[j].0@ by {}
                        assert forall|j: int| 0 <= j < b.len() implies (#[trigger] b[j]).0@
                            == a[j].0@ by {}
                    }
                }
            },
            None => {
                let mut ids: Vec<VirtualOutputId> = Vec::new();
                ids.push(id);
                self.entries.push((name.clone(), ids));
                proof {
                    assert(ids@ =~= Seq::<VirtualOutputId>::empty().push(id));
                    assert forall|other: Seq<char>| #[trigger]
                        self.lookup(other) == (if other == name@ {
                            old(self).lookup(other).push(id)
                        } else {
                            old(self).lookup(other)
                        }) by {
                        assert(self.entries@.drop_last() =~= old(self).entries@);
                        lemma_mapping_position(old(self).entries@, other);
                    }
                }
            },
        }
    }
}

/// All virtual outputs.
pub struct VirtualOutputManager {
    next_id: u32,
    virtual_outputs: IndexMap<u32, VirtualOutput>,
    physical_mapping: PhysicalMapping,
}

/// What the entries of a map of virtual outputs hold.
spec fn entry_views(entries: Seq<(u32, VirtualOutput)>) -> Seq<VirtualOutputView> {
    Seq::new(entries.len(), |i: int| entries[i].1@)
}

/// Whether each entry is filed under its own identifier.
spec fn keys_match(entries: Seq<(u32, VirtualOutput)>) -> bool {
    forall|i: int| 0 <= i < entries.len() ==> (#[trigger] entries[i]).0 == entries[i].1@.id.0
}

/// Whether no identifier occurs twice.
pub open spec fn ids_distinct(outputs: Seq<VirtualOutputView>) -> bool {
    forall|i: int, j: int|
        0 <= i < j < outputs.len() ==> (#[trigger] outputs[i]).id != (#[trigger] outputs[j]).id
}

/// `view_position` is the first place of the identifier, or it does not occur.
pub proof fn lemma_view_position(outputs: Seq<VirtualOutputView>, id: VirtualOutputId)
    ensures
        match view_position(outputs, id) {
            Some(i) => 0 <= i < outputs.len() && outputs[i].id == id && forall|j: int|
                0 <= j < i ==> (#[trigger] outputs[j]).id != id,
            None => forall|j: int| 0 <= j < outputs.len() ==> (#[trigger] outputs[j]).id != id,
        },
    decreases outputs.len(),
{
    if outputs.len() > 0 {
        let rest = outputs.drop_last();
        lemma_view_position(rest, id);
        assert forall|j: int| 0 <= j < rest.len() implies #[trigger] outputs[j] == rest[j] by {}
    }
}

/// A virtual output is found at its own place by its identifier.
pub proof fn lemma_position_of_member(outputs: Seq<VirtualOutputView>, i: int)
    requires
        ids_distinct(outputs),
        0 <= i < outputs.len(),
    ensures
        view_position(outputs, outputs[i].id) == Some(i),
{
    lemma_view_position(outputs, outputs[i].id);
}

proof fn lemma_key_position(entries: Seq<(u32, VirtualOutput)>, key: u32)
    requires
        keys_match(entries),
    ensures
        key_position(entries, key) == view_position(entry_views(entries), VirtualOutputId(key)),
    decreases entries.len(),
{
    if entries.len() > 0 {
        let rest = entries.drop_last();
        assert forall|i: int| 0 <= i < rest.len() implies (#[trigger] rest[i]).0
            == rest[i].1@.id.0 by {
            assert(rest[i] == entries[i]);
        }
        lemma_key_position(rest, key);
        assert(entry_views(entries).drop_last() =~= entry_views(rest));
        assert(entries.last().0 == entries.last().1@.id.0);
    }
}

/// Whatever an output shows is one of the virtual outputs.
pub proof fn lemma_shown_on_member(outputs: Seq<VirtualOutputView>, name: Seq<char>, i: int)
    requires
        0 <= i < shown_on(outputs, name).len(),
    ensures
        exists|k: int|
            0 <= k < outputs.len() && #[trigger] outputs[k] == shown_on(outputs, name)[i],
    decreases outputs.len(),
{
    let rest = outputs.drop_last();
    let before = shown_on(rest, name);
    if i < before.len() {
        lemma_shown_on_member(rest, name, i);
        let k = choose|k: int| 0 <= k < rest.len() && #[trigger] rest[k] == before[i];
        assert(outputs[k] == shown_on(outputs, name)[i]);
    } else {
        assert(outputs[outputs.len() - 1] == shown_on(outputs, name)[i]);
    }
}

/// Lists that differ in neither identifiers nor regions are shown on the same outputs.
pub proof fn lemma_shown_on_ids(a: Seq<VirtualOutputView>, b: Seq<VirtualOutputView>, name: Seq<char>)
    requires
        a.len() == b.len(),
        forall|i: int|
            0 <= i < a.len() ==> (#[trigger] a[i]).id == b[i].id && a[i].regions == b[i].regions,
    ensures
        ids_of(shown_on(a, name)) == ids_of(shown_on(b, name)),
    decreases a.len(),
{
    if a.len() > 0 {
        lemma_shown_on_ids(a.drop_last(), b.drop_last(), name);
        assert(a[a.len() - 1].id == b[a.len() - 1].id);
        let pa = ids_of(shown_on(a.drop_last(), name));
        let pb = ids_of(shown_on(b.drop_last(), name));
        assert(pa.len() == pb.len());
        assert forall|i: int| 0 <= i < shown_on(a, name).len() implies #[trigger] ids_of(
            shown_on(a, name),
        )[i] == ids_of(shown_on(b, name))[i] by {
            if i < pa.len() {
                assert(ids_of(shown_on(a, name))[i] == pa[i]);
                assert(ids_of(shown_on(b, name))[i] == pb[i]);
            }
        }
        assert(ids_of(shown_on(a, name)) =~= ids_of(shown_on(b, name)));
    } else {
        assert(a =~= b);
    }
}

proof fn lemma_shown_on_push(outputs: Seq<VirtualOutputView>, v: VirtualOutputView, name: Seq<char>)
    ensures
        ids_of(shown_on(outputs.push(v), name)) == ids_of(shown_on(outputs, name)) + Seq::new(
            regions_on(v.regions, name),
            |i: int| v.id,
        ),
{
    assert(outputs.push(v).drop_last() =~= outputs);
    assert(ids_of(shown_on(outputs.push(v), name)) =~= ids_of(shown_on(outputs, name)) + Seq::new(
        regions_on(v.regions, name),
        |i: int| v.id,
    ));
}

impl View for VirtualOutputManager {
    type V = ManagerView;

    closed spec fn view(&self) -> ManagerView {
        ManagerView {
            next_id: self.next_id as int,
            outputs: entry_views(output_entries(self.virtual_outputs)),
        }
    }
}

impl VirtualOutputManager {
    /// The invariant: every virtual output is filed under its own identifier, which was
    /// given out before and to no other; the mapping from output names holds exactly the
    /// virtual outputs with regions there; and none of them has two regions on one output.
    pub closed spec fn wf(self) -> bool {
        &&& keys_match(output_entries(self.virtual_outputs))
        &&& ids_distinct(self@.outputs)
        &&& forall|i: int|
            0 <= i < self@.outputs.len() ==> (#[trigger] self@.outputs[i]).id.0 < self.next_id
        &&& forall|name: Seq<char>| #[trigger]
            self.physical_mapping.lookup(name) == ids_of(shown_on(self@.outputs, name))
        &&& each_once(self@.outputs)
    }

    /// What the invariant says of the identifiers and of the regions.
    pub proof fn lemma_ids(self)
        requires
            self.wf(),
        ensures
            ids_distinct(self@.outputs),
            forall|i: int|
                0 <= i < self@.outputs.len() ==> (#[trigger] self@.outputs[i]).id.0
                    < self@.next_id,
            0 <= self@.next_id <= u32::MAX,
            each_once(self@.outputs),
    {
    }

    /// A manager without virtual outputs.
    pub fn new() -> (r: VirtualOutputManager)
        ensures
            r.wf(),
            r@ == ManagerView::empty(),
    {
        let r = VirtualOutputManager {
            next_id: 1,
            virtual_outputs: outputs_new(),
            physical_mapping: PhysicalMapping::new(),
        };
        proof {
            assert(r@.outputs =~= Seq::<VirtualOutputView>::empty());
            assert forall|name: Seq<char>| #[trigger]
                r.physical_mapping.lookup(name) == ids_of(shown_on(r@.outputs, name)) by {
                assert(ids_of(shown_on(r@.outputs, name)) =~= Seq::<VirtualOutputId>::empty());
            }
        }
        r
    }

    /// Adds one part of an output as a virtual output of its own.
    fn add_split(&mut self, output: &Output, part: Rectangle) -> (r: VirtualOutputId)
        requires
            old(self).wf(),
            old(self)@.next_id < u32::MAX,
        ensures
            final(self).wf(),
            final(self)@ == old(self)@.add_split(output@, part),
            r == VirtualOutputId(old(self)@.next_id as u32),
    {
        let id = VirtualOutputId(self.next_id);
        let ghost entries = output_entries(self.virtual_outputs);
        let virtual_output = VirtualOutput::from_split(id, output, part);
        let ghost v = virtual_output@;
        proof {
            lemma_key_position(entries, id.0);
            lemma_view_position(self@.outputs, id);
        }
        self.next_id = self.next_id + 1;
        self.physical_mapping.push(&output.name, id);
        outputs_set(&mut self.virtual_outputs, id.0, virtual_output);
        proof {
            let after = output_entries(self.virtual_outputs);
            assert(entry_views(after) =~= entry_views(entries).push(v));
            assert forall|i: int| 0 <= i < after.len() implies (#[trigger] after[i]).0
                == after[i].1@.id.0 by {
                if i < entries.len() {
                    assert(after[i] == entries[i]);
                }
            }
            assert forall|i: int, j: int| 0 <= i < j < self@.outputs.len() implies (
            #[trigger] self@.outputs[i]).id != (#[trigger] self@.outputs[j]).id by {
                assert(self@.outputs[i] == old(self)@.outputs[i]);
                if j < entries.len() {
                    assert(self@.outputs[j] == old(self)@.outputs[j]);
                }
            }
            assert forall|i: int| 0 <= i < self@.outputs.len() implies (
            #[trigger] self@.outputs[i]).id.0 < self.next_id by {
                if i < entries.len() {
                    assert(self@.outputs[i] == old(self)@.outputs[i]);
                }
            }
            assert forall|name: Seq<char>| #[trigger]
                self.physical_mapping.lookup(name) == ids_of(shown_on(self@.outputs, name)) by {
                lemma_shown_on_push(old(self)@.outputs, v, name);
                assert(old(self).physical_mapping.lookup(name) == ids_of(
                    shown_on(old(self)@.outputs, name),
                ));
                reveal_with_fuel(regions_on, 2);
                assert(v.regions.drop_last() =~= Seq::<RegionView>::empty());
                assert(self.physical_mapping.lookup(name) =~= ids_of(
                    shown_on(self@.outputs, name),
                ));
            }
        }
        proof {
            assert forall|i: int, name: Seq<char>| 0 <= i < self@.outputs.len() implies
                #[trigger] regions_on(self@.outputs[i].regions, name) <= 1 by {
                if i < entries.len() {
                    assert(self@.outputs[i] == old(self)@.outputs[i]);
                } else {
                    reveal_with_fuel(regions_on, 2);
                    assert(v.regions.drop_last() =~= Seq::<RegionView>::empty());
                }
            }
            assert forall|i: int| 0 <= i < self@.outputs.len() implies names_once(
                (#[trigger] self@.outputs[i]).config,
            ) by {
                if i < entries.len() {
                    assert(self@.outputs[i] == old(self)@.outputs[i]);
                }
            }
        }
        id
    }

    /// Adds a whole output as a virtual output of its own.
    pub fn create_default(&mut self, output: &Output) -> (r: VirtualOutputId)
        requires
            old(self).wf(),
            old(self)@.next_id < u32::MAX,
            output@.mode is Some,
        ensures
            final(self).wf(),
            final(self)@ == old(self)@.create_default(output@),
            r == VirtualOutputId(old(self)@.next_id as u32),
    {
        let size = output.mode.unwrap();
        self.add_split(output, Rectangle::from_size(size))
    }

    /// Whether there is an identifier left for another virtual output.
    pub fn has_next_id(&self) -> (r: bool)
        ensures
            r == (self@.next_id < u32::MAX),
    {
        self.next_id < u32::MAX
    }

    /// The number of virtual outputs.
    pub fn len(&self) -> (r: usize)
        ensures
            r == self@.outputs.len(),
    {
        outputs_len(&self.virtual_outputs)
    }

    /// The virtual output at a place in the order.
    pub fn at(&self, i: usize) -> (r: &VirtualOutput)
        requires
            i < self@.outputs.len(),
        ensures
            r@ == self@.outputs[i as int],
    {
        outputs_get_index(&self.virtual_outputs, i).unwrap().1
    }

    /// All virtual outputs, in order.
    pub fn all(&self) -> (r: Vec<&VirtualOutput>)
        ensures
            r@.len() == self@.outputs.len(),
            forall|i: int| 0 <= i < r@.len() ==> (#[trigger] r@[i])@ == self@.outputs[i],
    {
        let n: usize = self.len();
        let mut list: Vec<&VirtualOutput> = Vec::new();
        let mut i: usize = 0;
        while i < n
            invariant
                i <= n,
                n == self@.outputs.len(),
                list@.len() == i,
                forall|j: int| 0 <= j < i ==> (#[trigger] list@[j])@ == self@.outputs[j],
            decreases n - i,
        {
            list.push(self.at(i));
            i = i + 1;
        }
        list
    }

    /// The virtual output of an identifier.
    pub fn get(&self, id: VirtualOutputId) -> (r: Option<&VirtualOutput>)
        requires
            self.wf(),
        ensures
            match self@.position(id) {
                Some(i) => r is Some && r.unwrap()@ == self@.outputs[i] && 0 <= i
                    < self@.outputs.len() && self@.outputs[i].id == id,
                None => r is None,
            },
    {
        proof {
            lemma_key_position(output_entries(self.virtual_outputs), id.0);
            lemma_view_position(self@.outputs, id);
        }
        outputs_get(&self.virtual_outputs, id.0)
    }

    /// The virtual output of an identifier, for changing it. The invariant stays as
    /// long as its identifier, its configuration and its regions do.
    pub fn get_mut(&mut self, id: VirtualOutputId) -> (r: Option<&mut VirtualOutput>)
        requires
            old(self).wf(),
        ensures
            final(self)@.next_id == old(self)@.next_id,
            match old(self)@.position(id) {
                Some(i) => {
                    &&& r is Some
                    &&& 0 <= i < old(self)@.outputs.len()
                    &&& old(self)@.outputs[i].id == id
                    &&& r.unwrap()@ == old(self)@.outputs[i]
                    &&& final(self)@.outputs == old(self)@.outputs.update(i, final(r.unwrap())@)
                    &&& final(r.unwrap())@.id == id && final(r.unwrap())@.regions
                        == old(self)@.outputs[i].regions && final(r.unwrap())@.config
                        == old(self)@.outputs[i].config ==> final(self).wf()
                },
                None => r is None && final(self)@ == old(self)@ && final(self).wf(),
            },
    {
        let ghost entries = output_entries(self.virtual_outputs);
        proof {
            lemma_key_position(entries, id.0);
            lemma_view_position(self@.outputs, id);
            assert forall|x: VirtualOutput, i: int|
                #![trigger entries.update(i, (id.0, x))]
                0 <= i < entries.len() implies entry_views(entries.update(i, (id.0, x)))
                == entry_views(entries).update(i, x@) by {
                assert(entry_views(entries.update(i, (id.0, x))) =~= entry_views(entries).update(
                    i,
                    x@,
                ));
            }
            assert forall|x: VirtualOutput, i: int, name: Seq<char>|
                #![trigger shown_on(entry_views(entries).update(i, x@), name)]
                0 <= i < entries.len() && x@.id == entries[i].1@.id && x@.regions
                    == entries[i].1@.regions implies ids_of(
                shown_on(entry_views(entries).update(i, x@), name),
            ) == ids_of(shown_on(entry_views(entries), name)) by {
                let a = entry_views(entries).update(i, x@);
                let b = entry_views(entries);
                assert forall|k: int| 0 <= k < a.len() implies (#[trigger] a[k]).id == b[k].id
                    && a[k].regions == b[k].regions by {}
                lemma_shown_on_ids(a, b, name);
            }
            assert forall|x: VirtualOutput, i: int|
                #![trigger entries.update(i, (id.0, x))]
                0 <= i < entries.len() && entries[i].0 == id.0 && x@.id
                    == id implies keys_match(entries.update(i, (id.0, x))) && ids_distinct(
                entry_views(entries.update(i, (id.0, x))),
            ) by {
                let a = entry_views(entries.update(i, (id.0, x)));
                let b = entry_views(entries);
                assert forall|k: int| 0 <= k < a.len() implies (#[trigger] a[k]).id == b[k].id by {}
            }
        }
        outputs_get_mut(&mut self.virtual_outputs, id.0)
    }

    /// Shows a workspace on a virtual output, if there is such a virtual output.
    pub(crate) fn set_active_workspace(&mut self, id: VirtualOutputId, workspace: Option<WorkspaceId>)
        requires
            old(self).wf(),
        ensures
            final(self).wf(),
            final(self)@ == old(self)@.set_active(id, workspace),
    {
        match self.get_mut(id) {
            Some(v) => {
                v.set_active_workspace(workspace);
            },
            None => {},
        }
    }
}

/// The parts of a list of slices, one by one.
proof fn lemma_texts(v: Seq<&str>)
    ensures
        texts(v).len() == v.len(),
        forall|i: int| 0 <= i < v.len() ==> #[trigger] texts(v)[i] == v[i]@,
{
}

impl VirtualOutputManager {
    /// Files the virtual outputs anew under the outputs that show them.
    fn rebuild_mapping(&mut self)
        requires
            keys_match(output_entries(old(self).virtual_outputs)),
            ids_distinct(old(self)@.outputs),
            forall|i: int|
                0 <= i < old(self)@.outputs.len() ==> (#[trigger] old(self)@.outputs[i]).id.0
                    < old(self)@.next_id,
            each_once(old(self)@.outputs),
        ensures
            final(self).wf(),
            final(self)@ == old(self)@,
    {
        let ghost views = self@.outputs;
        let n: usize = self.len();
        let mut mapping = PhysicalMapping::new();
        let mut i: usize = 0;
        proof {
            assert forall|name: Seq<char>| #[trigger]
                mapping.lookup(name) == ids_of(shown_on(views.take(0), name)) by {
                assert(ids_of(shown_on(views.take(0), name)) =~= Seq::<VirtualOutputId>::empty());
            }
        }
        while i < n
            invariant
                i <= n,
                n == views.len(),
                views == self@.outputs,
                *self == *old(self),
                forall|name: Seq<char>| #[trigger]
                    mapping.lookup(name) == ids_of(shown_on(views.take(i as int), name)),
            decreases n - i,
        {
            let v = self.at(i);
            let id = v.id();
            let regions = v.regions();
            let ghost region_list = v@.regions;
            let ghost start = mapping;
            let mut k: usize = 0;
            proof {
                assert forall|name: Seq<char>| #[trigger]
                    mapping.lookup(name) == start.lookup(name) + Seq::new(
                        regions_on(region_list.take(0), name),
                        |j: int| id,
                    ) by {
                    assert(mapping.lookup(name) =~= start.lookup(name) + Seq::new(
                        regions_on(region_list.take(0), name),
                        |j: int| id,
                    ));
                }
            }
            while k < regions.len()
                invariant
                    k <= regions@.len(),
                    region_list == region_views(regions@),
                    forall|name: Seq<char>| #[trigger]
                        mapping.lookup(name) == start.lookup(name) + Seq::new(
                            regions_on(region_list.take(k as int), name),
                            |j: int| id,
                        ),
                decreases regions@.len() - k,
            {
                let ghost before = mapping;
                mapping.push(&regions[k].physical_output.name, id);
                proof {
                    assert(region_list.take(k + 1).drop_last() =~= region_list.take(k as int));
                    assert(region_list.take(k + 1).last() == regions@[k as int]@);
                    assert forall|name: Seq<char>| #[trigger]
                        mapping.lookup(name) == start.lookup(name) + Seq::new(
                            regions_on(region_list.take(k + 1), name),
                            |j: int| id,
                        ) by {
                        assert(before.lookup(name) == start.lookup(name) + Seq::new(
                            regions_on(region_list.take(k as int), name),
                            |j: int| id,
                        ));
                        assert(mapping.lookup(name) =~= start.lookup(name) + Seq::new(
                            regions_on(region_list.take(k + 1), name),
                            |j: int| id,
                        ));
                    }
                }
                k = k + 1;
            }
            proof {
                assert(region_list.take(k as int) =~= region_list);
                assert(views.take(i + 1) =~= views.take(i as int).push(v@));
                assert forall|name: Seq<char>| #[trigger]
                    mapping.lookup(name) == ids_of(shown_on(views.take(i + 1), name)) by {
                    lemma_shown_on_push(views.take(i as int), v@, name);
                    assert(start.lookup(name) == ids_of(shown_on(views.take(i as int), name)));
                }
            }
            i = i + 1;
        }
        assert(views.take(i as int) =~= views);
        self.physical_mapping = mapping;
    }

    /// Brings all virtual outputs up to date with the physical outputs.
    pub fn update_all(&mut self, physical_outputs: &Vec<Output>)
        requires
            old(self).wf(),
        ensures
            final(self).wf(),
            final(self)@ == old(self)@.update_all(output_views(physical_outputs@)),
    {
        let ghost start = self@.outputs;
        let ghost physical = output_views(physical_outputs@);
        let n: usize = self.len();
        let mut i: usize = 0;
        while i < n
            invariant
                i <= n,
                n == start.len(),
                ids_distinct(start),
                physical == output_views(physical_outputs@),
                self.next_id == old(self).next_id,
                keys_match(output_entries(self.virtual_outputs)),
                self@.outputs.len() == n,
                forall|j: int| 0 <= j < i ==> #[trigger] self@.outputs[j] == start[j].update(physical),
                forall|j: int| i <= j < n ==> #[trigger] self@.outputs[j] == start[j],
            decreases n - i,
        {
            let ghost entries = output_entries(self.virtual_outputs);
            let ghost before = self@.outputs;
            let id = self.at(i).id();
            proof {
                assert forall|j: int, k: int| 0 <= j < k < before.len() implies (
                #[trigger] before[j]).id != (#[trigger] before[k]).id by {
                    assert(before[j].id == start[j].id);
                    assert(before[k].id == start[k].id);
                    assert(start[j].id != start[k].id);
                }
                lemma_key_position(entries, id.0);
                lemma_position_of_member(before, i as int);
            }
            match outputs_get_mut(&mut self.virtual_outputs, id.0) {
                Some(v) => {
                    v.rebuild(physical_outputs);
                },
                None => {},
            }
            proof {
                let after = output_entries(self.virtual_outputs);
                assert(after.len() == entries.len());
                assert forall|j: int| 0 <= j < after.len() && j != i implies #[trigger] after[j]
                    == entries[j] by {}
                assert(after[i as int].1@ == start[i as int].update(physical));
                assert(entry_views(after) == self@.outputs);
                assert forall|j: int| 0 <= j < n && j != i implies #[trigger] self@.outputs[j]
                    == before[j] by {
                    assert(after[j] == entries[j]);
                }
            }
            i = i + 1;
        }
        proof {
            assert forall|j: int, k: int| 0 <= j < k < self@.outputs.len() implies (
            #[trigger] self@.outputs[j]).id != (#[trigger] self@.outputs[k]).id by {
                assert(start[j].id != start[k].id);
            }
            assert forall|j: int| 0 <= j < self@.outputs.len() implies (
            #[trigger] self@.outputs[j]).id.0 < self@.next_id by {
                assert(old(self)@.outputs[j].id.0 < old(self).next_id);
            }
            assert(self@.outputs =~= old(self)@.update_all(physical).outputs);
            lemma_update_once(old(self)@, physical);
        }
        self.rebuild_mapping();
        assert(self@ =~= old(self)@.update_all(physical));
    }

    /// The virtual outputs with regions on a physical output, in order.
    pub fn virtual_outputs_for_physical(&self, name: &str) -> (r: Vec<&VirtualOutput>)
        requires
            self.wf(),
        ensures
            r@.len() == shown_on(self@.outputs, name@).len(),
            forall|i: int|
                0 <= i < r@.len() ==> (#[trigger] r@[i])@ == shown_on(self@.outputs, name@)[i],
    {
        let ghost shown = shown_on(self@.outputs, name@);
        let ids = self.physical_mapping.get(name);
        assert(ids@ == ids_of(shown));
        let mut list: Vec<&VirtualOutput> = Vec::new();
        let mut i: usize = 0;
        while i < ids.len()
            invariant
                i <= ids@.len(),
                self.wf(),
                shown == shown_on(self@.outputs, name@),
                ids@ == ids_of(shown),
                list@.len() == i,
                forall|j: int| 0 <= j < i ==> (#[trigger] list@[j])@ == shown[j],
            decreases ids@.len() - i,
        {
            proof {
                lemma_shown_on_member(self@.outputs, name@, i as int);
                let k = choose|k: int|
                    0 <= k < self@.outputs.len() && #[trigger] self@.outputs[k] == shown[i as int];
                lemma_position_of_member(self@.outputs, k);
                assert(ids@[i as int] == shown[i as int].id);
            }
            match self.get(ids[i]) {
                Some(v) => {
                    list.push(v);
                },
                None => {},
            }
            i = i + 1;
        }
        list
    }

    /// Replaces all virtual outputs by those that the configuration describes, if there
    /// is a configuration: a list, separated by `;`, of parts of the form
    /// `name:x,y,widthxheight`. Each part splits a rectangle off the named output; parts
    /// that are malformed or name no output add nothing. Outputs that no part mentions
    /// become virtual outputs whole.
    pub fn load_config(&mut self, config: Option<&str>, physical_outputs: &Vec<Output>)
        requires
            old(self).wf(),
            config matches Some(text) ==> {
                &&& split_spec(text@, ';').len() + physical_outputs@.len() < u32::MAX
                &&& forall|i: int|
                    0 <= i < physical_outputs@.len() && !mentions(
                        split_spec(text@, ';'),
                        (#[trigger] physical_outputs@[i])@.name,
                    ) ==> physical_outputs@[i]@.mode is Some
            },
        ensures
            final(self).wf(),
            final(self)@ == (match config {
                Some(text) => ManagerView::from_config(text@, output_views(physical_outputs@)),
                None => old(self)@,
            }),
    {
        let text = match config {
            Some(text) => text,
            None => {
                return;
            },
        };
        *self = VirtualOutputManager::new();
        let ghost physical = output_views(physical_outputs@);
        let specs = split(text, ';');
        let ghost spec_texts = texts(specs@);
        let mut i: usize = 0;
        assert(spec_texts.take(0) =~= Seq::<Seq<char>>::empty());
        while i < specs.len()
            invariant
                i <= specs@.len(),
                spec_texts == texts(specs@),
                physical == output_views(physical_outputs@),
                self.wf(),
                specs@.len() + physical_outputs@.len() < u32::MAX,
                self@ == ManagerView::empty().load_specs(spec_texts.take(i as int), physical),
                1 <= self@.next_id <= i + 1,
            decreases specs@.len() - i,
        {
            proof {
                assert(spec_texts.take(i + 1).drop_last() =~= spec_texts.take(i as int));
                assert(spec_texts.take(i + 1).last() == specs@[i as int]@);
            }
            let parts = split(specs[i], ':');
            proof {
                lemma_texts(parts@);
            }
            if parts.len() == 2 {
                match parse_rectangle_spec(parts[1]) {
                    Some(rect) => {
                        match find_output(physical_outputs, parts[0]) {
                            Some(k) => {
                                self.add_split(&physical_outputs[k], rect);
                            },
                            None => {},
                        }
                    },
                    None => {},
                }
            }
            i = i + 1;
        }
        assert(spec_texts.take(i as int) =~= spec_texts);
        let ghost split_off = self@;
        let mut k: usize = 0;
        while k < physical_outputs.len()
            invariant
                k <= physical_outputs@.len(),
                spec_texts == texts(specs@),
                spec_texts == split_spec(text@, ';'),
                physical == output_views(physical_outputs@),
                self.wf(),
                specs@.len() + physical_outputs@.len() < u32::MAX,
                self@ == split_off.load_rest(spec_texts, physical, k as int),
                1 <= self@.next_id <= specs@.len() + 1 + k,
                forall|i: int|
                    0 <= i < physical_outputs@.len() && !mentions(
                        spec_texts,
                        (#[trigger] physical_outputs@[i])@.name,
                    ) ==> physical_outputs@[i]@.mode is Some,
            decreases physical_outputs@.len() - k,
        {
            let output = &physical_outputs[k];
            let configured = is_mentioned(&specs, output.name.as_str());
            assert(physical[k as int] == output@);
            if !configured {
                self.create_default(output);
            }
            k = k + 1;
        }
    }
}

/// Whether one of the parts of the configuration text names the output.
fn is_mentioned(specs: &Vec<&str>, name: &str) -> (r: bool)
    ensures
        r == mentions(texts(specs@), name@),
{
    let ghost spec_texts = texts(specs@);
    let mut i: usize = 0;
    while i < specs.len()
        invariant
            i <= specs@.len(),
            spec_texts == texts(specs@),
            forall|j: int|
                0 <= j < i ==> split_spec(#[trigger] spec_texts[j], ':')[0] != name@,
        decreases specs@.len() - i,
    {
        let parts = split(specs[i], ':');
        proof {
            lemma_texts(parts@);
            assert(spec_texts[i as int] == specs@[i as int]@);
        }
        if same_text(parts[0], name) {
            return true;
        }
        i = i + 1;
    }
    false
}

/// An output that is found has the name.
proof fn lemma_lookup(outputs: Seq<OutputView>, name: Seq<char>)
    ensures
        lookup_output(outputs, name) matches Some(i) ==> 0 <= i < outputs.len() && outputs[i].name
            == name,
    decreases outputs.len(),
{
    if outputs.len() > 0 && outputs.last().name != name {
        lemma_lookup(outputs.drop_last(), name);
    }
}

/// Of a configuration that names each output once, one region lies on an output that it names
/// and that is there, and none on any other.
proof fn lemma_regions_for(config: Seq<(Seq<char>, Rectangle)>, physical: Seq<OutputView>, name: Seq<char>)
    requires
        names_once(config),
    ensures
        regions_on(regions_for(config, physical), name) == (if lookup_output(
            physical,
            name,
        ) is Some && name_position(config, name) is Some {
            1int
        } else {
            0
        }),
    decreases config.len(),
{
    if config.len() > 0 {
        let rest = config.drop_last();
        let last = config.last().0;
        assert forall|i: int, j: int| 0 <= i < j < rest.len() implies (#[trigger] rest[i]).0 != (
        #[trigger] rest[j]).0 by {
            assert(config[i].0 != config[j].0);
        }
        lemma_regions_for(rest, physical, name);
        lemma_name_position(rest, last);
        lemma_lookup(physical, last);
        match name_position(rest, last) {
            Some(i) => {
                assert(config[i].0 != config[config.len() - 1].0);
            },
            None => {},
        }
        let before = regions_for(rest, physical);
        match lookup_output(physical, last) {
            Some(k) => {
                let region = region_of(physical[k], config.last().1);
                assert(before.push(region).drop_last() =~= before);
            },
            None => {},
        }
    }
}

/// Virtual outputs that are brought up to date have at most one region on each output.
proof fn lemma_update_once(m: ManagerView, physical: Seq<OutputView>)
    requires
        each_once(m.outputs),
    ensures
        each_once(m.update_all(physical).outputs),
{
    let t = m.update_all(physical);
    assert forall|i: int, name: Seq<char>| 0 <= i < t.outputs.len() implies #[trigger] regions_on(
        t.outputs[i].regions,
        name,
    ) <= 1 by {
        assert(names_once(m.outputs[i].config));
        lemma_regions_for(m.outputs[i].config, physical, name);
    }
    assert forall|i: int| 0 <= i < t.outputs.len() implies names_once(
        (#[trigger] t.outputs[i]).config,
    ) by {
        assert(names_once(m.outputs[i].config));
    }
}

/// A virtual output has a region on an output exactly if the number of them is not zero.
proof fn lemma_has_region(v: VirtualOutputView, name: Seq<char>, k: int)
    requires
        0 <= k <= v.regions.len(),
    ensures
        regions_on(v.regions.take(k), name) > 0 <==> exists|i: int|
            0 <= i < k && (#[trigger] v.regions[i]).name == name,
    decreases k,
{
    if k > 0 {
        lemma_has_region(v, name, k - 1);
        assert(v.regions.take(k).drop_last() =~= v.regions.take(k - 1));
        assert(v.regions.take(k).last() == v.regions[k - 1]);
    }
}

/// What an output shows are the virtual outputs with a region on it, each once, in order.
pub proof fn law_shown_once(outputs: Seq<VirtualOutputView>, name: Seq<char>)
    requires
        each_once(outputs),
        ids_distinct(outputs),
    ensures
        shown_on(outputs, name) == outputs.filter(|v: VirtualOutputView| has_region_on(v, name)),
        ids_distinct(shown_on(outputs, name)),
    decreases outputs.len(),
{
    reveal(Seq::filter);
    let p = |v: VirtualOutputView| has_region_on(v, name);
    if outputs.len() > 0 {
        let rest = outputs.drop_last();
        let last = outputs.last();
        assert forall|i: int, j: int| 0 <= i < j < rest.len() implies (#[trigger] rest[i]).id != (
        #[trigger] rest[j]).id by {
            assert(outputs[i].id != outputs[j].id);
        }
        assert(each_once(rest)) by {
            assert forall|i: int| 0 <= i < rest.len() implies names_once(
                (#[trigger] rest[i]).config,
            ) by {
                assert(rest[i] == outputs[i]);
            }
            assert forall|i: int, n: Seq<char>| 0 <= i < rest.len() implies #[trigger] regions_on(
                rest[i].regions,
                n,
            ) <= 1 by {
                assert(rest[i] == outputs[i]);
                assert(regions_on(outputs[i].regions, n) <= 1);
            }
        }
        law_shown_once(rest, name);
        lemma_has_region(last, name, last.regions.len() as int);
        assert(last.regions.take(last.regions.len() as int) =~= last.regions);
        assert(outputs[outputs.len() - 1] == last);
        assert(regions_on(outputs[outputs.len() - 1].regions, name) <= 1);
        let before = shown_on(rest, name);
        let all = shown_on(outputs, name);
        if has_region_on(last, name) {
            assert(all =~= before.push(last));
            assert forall|i: int, j: int| 0 <= i < j < all.len() implies (#[trigger] all[i]).id
                != (#[trigger] all[j]).id by {
                if j < before.len() {
                    assert(before[i].id != before[j].id);
                } else {
                    lemma_shown_on_member(rest, name, i);
                    let k = choose|k: int| 0 <= k < rest.len() && #[trigger] rest[k] == before[i];
                    assert(outputs[k].id != outputs[outputs.len() - 1].id);
                }
            }
        } else {
            assert(all =~= before);
        }
    } else {
        assert(outputs.filter(p) =~= Seq::<VirtualOutputView>::empty());
    }
}

/// After the virtual outputs are brought up to date, an output shows exactly those with a
/// region on it, each once, in order; these are the ones that name it in their configurations,
/// and an output that is not there shows none.
pub proof fn law_shown_after_update(m: ManagerView, physical: Seq<OutputView>, name: Seq<char>)
    requires
        each_once(m.outputs),
        ids_distinct(m.outputs),
    ensures
        ({
            let t = m.update_all(physical);
            &&& each_once(t.outputs)
            &&& ids_distinct(t.outputs)
            &&& shown_on(t.outputs, name) == t.outputs.filter(
                |v: VirtualOutputView| has_region_on(v, name),
            )
            &&& ids_distinct(shown_on(t.outputs, name))
            &&& lookup_output(physical, name) is None ==> shown_on(t.outputs, name).len() == 0
            &&& forall|i: int|
                0 <= i < t.outputs.len() ==> (has_region_on(#[trigger] t.outputs[i], name)
                    <==> lookup_output(physical, name) is Some && name_position(
                    m.outputs[i].config,
                    name,
                ) is Some)
        }),
{
    let t = m.update_all(physical);
    lemma_update_once(m, physical);
    assert forall|i: int, j: int| 0 <= i < j < t.outputs.len() implies (
    #[trigger] t.outputs[i]).id != (#[trigger] t.outputs[j]).id by {
        assert(m.outputs[i].id != m.outputs[j].id);
    }
    law_shown_once(t.outputs, name);
    assert forall|i: int| 0 <= i < t.outputs.len() implies (has_region_on(
        #[trigger] t.outputs[i],
        name,
    ) <==> lookup_output(physical, name) is Some && name_position(
        m.outputs[i].config,
        name,
    ) is Some) by {
        let v = t.outputs[i];
        assert(names_once(m.outputs[i].config));
        lemma_regions_for(m.outputs[i].config, physical, name);
        lemma_has_region(v, name, v.regions.len() as int);
        assert(v.regions.take(v.regions.len() as int) =~= v.regions);
    }
    if lookup_output(physical, name) is None && shown_on(t.outputs, name).len() > 0 {
        lemma_shown_on_member(t.outputs, name, 0);
        let k = choose|k: int|
            0 <= k < t.outputs.len() && #[trigger] t.outputs[k] == shown_on(t.outputs, name)[0];
        t.outputs.lemma_filter_pred(|v: VirtualOutputView| has_region_on(v, name), 0);
        assert(has_region_on(t.outputs[k], name));
    }
}

/// The text of a rectangle, in the form `x,y,widthxheight`.
pub open spec fn rect_text(rect: Rectangle) -> Seq<char> {
    signed_text(rect.loc.x as int).push(',') + (signed_text(rect.loc.y as int).push(',') + (
    signed_text(rect.size.w as int).push('x') + signed_text(rect.size.h as int)))
}

/// A number's notation has no separator in it.
proof fn lemma_number_whole(n: int, sep: char)
    requires
        sep == ',' || sep == 'x' || sep == ':',
    ensures
        split_spec(signed_text(n), sep) == seq![signed_text(n)],
        !signed_text(n).contains(sep),
{
    let s = signed_text(n);
    lemma_signed_text_chars(n);
    assert forall|i: int| 0 <= i < s.len() implies #[trigger] s[i] != sep by {}
    lemma_split_whole(s, sep);
}

/// A rectangle that is written as `x,y,widthxheight` is read back as itself.
pub proof fn law_rect_round_trip(rect: Rectangle)
    ensures
        parse_rect(rect_text(rect)) == Some(rect),
{
    let x = signed_text(rect.loc.x as int);
    let y = signed_text(rect.loc.y as int);
    let w = signed_text(rect.size.w as int);
    let h = signed_text(rect.size.h as int);
    let size = w.push('x') + h;
    let rest = y.push(',') + size;
    lemma_number_whole(rect.loc.x as int, ',');
    lemma_number_whole(rect.loc.y as int, ',');
    lemma_number_whole(rect.size.w as int, ',');
    lemma_number_whole(rect.size.h as int, ',');
    lemma_number_whole(rect.size.w as int, 'x');
    lemma_number_whole(rect.size.h as int, 'x');
    assert forall|i: int| 0 <= i < size.len() implies #[trigger] size[i] != ',' by {
        if i < w.len() {
            assert(size[i] == w[i]);
            assert(w.contains(w[i]));
        } else if i > w.len() {
            assert(size[i] == h[i - w.len() - 1]);
            assert(h.contains(h[i - w.len() - 1]));
        }
    }
    lemma_split_whole(size, ',');
    lemma_split_joined(y, size, ',');
    lemma_split_joined(x, rest, ',');
    lemma_split_joined(w, h, 'x');
    assert(split_spec(rect_text(rect), ',') =~= seq![x, y, size]);
    assert(split_spec(size, 'x') =~= seq![w, h]);
    law_signed_round_trip(rect.loc.x);
    law_signed_round_trip(rect.loc.y);
    law_signed_round_trip(rect.size.w);
    law_signed_round_trip(rect.size.h);
}

/// A part of a configuration that is written as `name:x,y,widthxheight` is read back as the
/// name and the rectangle, as long as the name holds no colon.
pub proof fn law_spec_round_trip(name: Seq<char>, rect: Rectangle)
    requires
        !name.contains(':'),
    ensures
        parse_spec(name.push(':') + rect_text(rect)) == Some((name, rect)),
{
    let text = rect_text(rect);
    let x = signed_text(rect.loc.x as int);
    let y = signed_text(rect.loc.y as int);
    let w = signed_text(rect.size.w as int);
    let h = signed_text(rect.size.h as int);
    law_rect_round_trip(rect);
    lemma_number_whole(rect.loc.x as int, ':');
    lemma_number_whole(rect.loc.y as int, ':');
    lemma_number_whole(rect.size.w as int, ':');
    lemma_number_whole(rect.size.h as int, ':');
    assert forall|i: int| 0 <= i < text.len() implies #[trigger] text[i] != ':' by {
        let a = x.len() as int;
        let b = a + 1 + y.len();
        let c = b + 1 + w.len();
        if i < a {
            assert(text[i] == x[i]);
            assert(x.contains(x[i]));
        } else if a < i < b {
            assert(text[i] == y[i - a - 1]);
            assert(y.contains(y[i - a - 1]));
        } else if b < i < c {
            assert(text[i] == w[i - b - 1]);
            assert(w.contains(w[i - b - 1]));
        } else if c < i {
            assert(text[i] == h[i - c - 1]);
            assert(h.contains(h[i - c - 1]));
        }
    }
    assert forall|i: int| 0 <= i < name.len() implies #[trigger] name[i] != ':' by {
        assert(name.contains(name[i]));
    }
    lemma_split_whole(text, ':');
    lemma_split_whole(name, ':');
    lemma_split_joined(name, text, ':');
    assert(split_spec(name.push(':') + text, ':') =~= seq![name, text]);
}

/// Bringing the virtual outputs up to date changes neither their number and order nor
/// their identifiers, configurations and workspaces.
pub proof fn law_update_keeps_identity(m: ManagerView, physical: Seq<OutputView>, i: int)
    requires
        0 <= i < m.outputs.len(),
    ensures
        m.update_all(physical).outputs.len() == m.outputs.len(),
        m.update_all(physical).outputs[i].id == m.outputs[i].id,
        m.update_all(physical).outputs[i].config == m.outputs[i].config,
        m.update_all(physical).outputs[i].active == m.outputs[i].active,
        m.update_all(physical).next_id == m.next_id,
{
}

/// Bringing the virtual outputs up to date twice does what doing it once does.
pub proof fn law_update_idempotent(m: ManagerView, physical: Seq<OutputView>)
    ensures
        m.update_all(physical).update_all(physical) == m.update_all(physical),
{
    assert(m.update_all(physical).update_all(physical).outputs =~= m.update_all(physical).outputs);
}

/// A virtual output that shows one part of one output keeps its region and its
/// rectangle when the outputs are listed again unchanged.
pub proof fn law_split_survives_update(id: VirtualOutputId, physical: Seq<OutputView>, k: int, part: Rectangle)
    requires
        0 <= k < physical.len(),
        lookup_output(physical, physical[k].name) == Some(k),
        logical_rect_of(physical[k], part).0.regular(),
        logical_rect_of(physical[k], part).0.loc.x < i32::MAX,
    ensures
        VirtualOutputView::from_split(id, physical[k], part).update(physical)
            == VirtualOutputView::from_split(id, physical[k], part),
{
    let v = VirtualOutputView::from_split(id, physical[k], part);
    reveal_with_fuel(regions_for, 2);
    reveal_with_fuel(bounds_of, 2);
    assert(v.config.drop_last() =~= Seq::<(Seq<char>, Rectangle)>::empty());
    assert(regions_for(v.config, physical) =~= v.regions);
    assert(v.regions.drop_last() =~= Seq::<RegionView>::empty());
}

/// A configuration gives out identifiers from one on, each to one virtual output.
pub proof fn law_config_ids(config: Seq<char>, physical: Seq<OutputView>, i: int)
    requires
        0 <= i < ManagerView::from_config(config, physical).outputs.len(),
        split_spec(config, ';').len() + physical.len() < u32::MAX,
    ensures
        ManagerView::from_config(config, physical).outputs[i].id.0 == i + 1,
        ManagerView::from_config(config, physical).outputs[i].active is None,
{
    let specs = split_spec(config, ';');
    lemma_load_specs_ids(specs, physical);
    lemma_load_rest_ids(
        ManagerView::empty().load_specs(specs, physical),
        specs,
        physical,
        physical.len() as int,
    );
}

/// Whether identifiers count up from one and no workspace is shown.
spec fn fresh(m: ManagerView) -> bool {
    &&& m.next_id == m.outputs.len() + 1
    &&& forall|i: int|
        0 <= i < m.outputs.len() && i < u32::MAX ==> (#[trigger] m.outputs[i]).id.0 == i + 1
            && m.outputs[i].active is None
}

proof fn lemma_load_specs_ids(specs: Seq<Seq<char>>, physical: Seq<OutputView>)
    requires
        specs.len() < u32::MAX,
    ensures
        fresh(ManagerView::empty().load_specs(specs, physical)),
        ManagerView::empty().load_specs(specs, physical).outputs.len() <= specs.len(),
    decreases specs.len(),
{
    if specs.len() > 0 {
        lemma_load_specs_ids(specs.drop_last(), physical);
    }
}

proof fn lemma_load_rest_ids(m: ManagerView, specs: Seq<Seq<char>>, physical: Seq<OutputView>, k: int)
    requires
        fresh(m),
        0 <= k <= physical.len(),
        m.outputs.len() + physical.len() < u32::MAX,
    ensures
        fresh(m.load_rest(specs, physical, k)),
        m.load_rest(specs, physical, k).outputs.len() <= m.outputs.len() + k,
    decreases k,
{
    if k > 0 {
        lemma_load_rest_ids(m, specs, physical, k - 1);
    }
}

/// A part of an output at scale one lies in the global space where the output lies, moved by the
/// part's corner, and is as large as the part. At another scale, place and size are divided by
/// it: times the scale, they are what they were, less what is lost by rounding.
pub proof fn law_region_place(output: OutputView, part: Rectangle)
    requires
        output.scale.0 > 0,
        0 <= part.loc.x + output.position.0.x <= i32::MAX,
        0 <= part.loc.y + output.position.0.y <= i32::MAX,
        part.size.w >= 0,
        part.size.h >= 0,
    ensures
        ({
            let region = region_of(output, part);
            let r = region.rect.0;
            let s = output.scale.0;
            let x = part.loc.x + output.position.0.x;
            let y = part.loc.y + output.position.0.y;
            &&& region.output == output.id
            &&& region.name == output.name
            &&& s == 256 ==> r.loc.x == x && r.loc.y == y && r.size == part.size
            &&& r.loc.x < i32::MAX ==> r.loc.x * s <= x * 256 < (r.loc.x + 1) * s
            &&& r.loc.y < i32::MAX ==> r.loc.y * s <= y * 256 < (r.loc.y + 1) * s
            &&& r.size.w < i32::MAX ==> r.size.w * s <= part.size.w * 256 < (r.size.w + 1) * s
            &&& r.size.h < i32::MAX ==> r.size.h * s <= part.size.h * 256 < (r.size.h + 1) * s
        }),
{
    let x = part.loc.x + output.position.0.x;
    let y = part.loc.y + output.position.0.y;
    law_scaled_length(x, output.scale);
    law_scaled_length(y, output.scale);
    law_scaled_length(part.size.w as int, output.scale);
    law_scaled_length(part.size.h as int, output.scale);
    if output.scale.0 == 256 {
        law_identity_scale(x as i32);
        law_identity_scale(y as i32);
        law_identity_scale(part.size.w);
        law_identity_scale(part.size.h);
    }
}

proof fn lemma_bounds_attained(regions: Seq<RegionView>)
    requires
        regions.len() > 0,
    ensures
        exists|i: int|
            0 <= i < regions.len() && (#[trigger] regions[i]).rect.0.loc.x == bounds_of(
                regions,
            ).min_x,
        exists|i: int|
            0 <= i < regions.len() && (#[trigger] regions[i]).rect.0.loc.y == bounds_of(
                regions,
            ).min_y,
        exists|i: int|
            0 <= i < regions.len() && (#[trigger] regions[i]).rect.0.right() == bounds_of(
                regions,
            ).max_x,
        exists|i: int|
            0 <= i < regions.len() && (#[trigger] regions[i]).rect.0.bottom() == bounds_of(
                regions,
            ).max_y,
    decreases regions.len(),
{
    let rest = regions.drop_last();
    let b = bounds_of(rest);
    let n = regions.len() - 1;
    assert(regions[n] == regions.last());
    if rest.len() > 0 {
        lemma_bounds_attained(rest);
        let i0 = choose|i: int|
            0 <= i < rest.len() && (#[trigger] rest[i]).rect.0.loc.x == b.min_x;
        let i1 = choose|i: int|
            0 <= i < rest.len() && (#[trigger] rest[i]).rect.0.loc.y == b.min_y;
        let i2 = choose|i: int|
            0 <= i < rest.len() && (#[trigger] rest[i]).rect.0.right() == b.max_x;
        let i3 = choose|i: int|
            0 <= i < rest.len() && (#[trigger] rest[i]).rect.0.bottom() == b.max_y;
        assert(regions[i0] == rest[i0] && regions[i1] == rest[i1] && regions[i2] == rest[i2]
            && regions[i3] == rest[i3]);
    } else {
        assert(regions[n].rect.0.loc.x == bounds_of(regions).min_x);
        assert(regions[n].rect.0.loc.y == bounds_of(regions).min_y);
        assert(regions[n].rect.0.right() == bounds_of(regions).max_x);
        assert(regions[n].rect.0.bottom() == bounds_of(regions).max_y);
    }
}

/// The rectangle around regions reaches no further than they do: on each side, one of them ends
/// where it ends, and all lie inside.
pub proof fn law_cover_is_tight(regions: Seq<RegionView>, i: int)
    requires
        0 <= i < regions.len(),
        forall|j: int|
            0 <= j < regions.len() ==> (#[trigger] regions[j]).rect.0.regular() && -0x3fff_ffff
                <= regions[j].rect.0.loc.x && -0x3fff_ffff <= regions[j].rect.0.loc.y
                && regions[j].rect.0.right() <= 0x3fff_ffff && regions[j].rect.0.bottom()
                <= 0x3fff_ffff,
    ensures
        covering_rect(regions) is Some,
        ({
            let c = covering_rect(regions).unwrap().0;
            let r = regions[i].rect.0;
            &&& c.loc.x <= r.loc.x && r.loc.x + r.size.w <= c.loc.x + c.size.w
            &&& c.loc.y <= r.loc.y && r.loc.y + r.size.h <= c.loc.y + c.size.h
            &&& exists|j: int|
                0 <= j < regions.len() && (#[trigger] regions[j]).rect.0.loc.x == c.loc.x
            &&& exists|j: int|
                0 <= j < regions.len() && (#[trigger] regions[j]).rect.0.loc.y == c.loc.y
            &&& exists|j: int|
                0 <= j < regions.len() && (#[trigger] regions[j]).rect.0.loc.x
                    + regions[j].rect.0.size.w == c.loc.x + c.size.w
            &&& exists|j: int|
                0 <= j < regions.len() && (#[trigger] regions[j]).rect.0.loc.y
                    + regions[j].rect.0.size.h == c.loc.y + c.size.h
        }),
{
    lemma_bounds_cover(regions, i);
    lemma_bounds_attained(regions);
    let b = bounds_of(regions);
    let i0 = choose|j: int|
        0 <= j < regions.len() && (#[trigger] regions[j]).rect.0.loc.x == b.min_x;
    let i1 = choose|j: int|
        0 <= j < regions.len() && (#[trigger] regions[j]).rect.0.loc.y == b.min_y;
    let i2 = choose|j: int|
        0 <= j < regions.len() && (#[trigger] regions[j]).rect.0.right() == b.max_x;
    let i3 = choose|j: int|
        0 <= j < regions.len() && (#[trigger] regions[j]).rect.0.bottom() == b.max_y;
    assert(regions[i0].rect.0.regular() && regions[i1].rect.0.regular()
        && regions[i2].rect.0.regular() && regions[i3].rect.0.regular());
    assert(regions[i].rect.0.regular());
}

/// An output that is added whole becomes a virtual output of its own, with the next identifier,
/// that shows no workspace. At scale one it lies where the output lies and is as large as the
/// output's mode. Those that were there stay.
pub proof fn law_whole_output(m: ManagerView, output: OutputView)
    requires
        output.mode is Some,
        output.scale.0 == 256,
        output.mode.unwrap().wf(),
        0 <= output.position.0.x,
        0 <= output.position.0.y,
        0 <= m.next_id < u32::MAX,
    ensures
        ({
            let t = m.create_default(output);
            let v = t.outputs.last();
            &&& t.outputs.len() == m.outputs.len() + 1
            &&& t.outputs.drop_last() == m.outputs
            &&& v.id.0 == m.next_id
            &&& t.next_id == m.next_id + 1
            &&& v.active is None
            &&& v.geometry.0.loc == output.position.0
            &&& v.geometry.0.size == output.mode.unwrap()
            &&& v.regions.len() == 1
            &&& v.regions[0].output == output.id
            &&& v.regions[0].name == output.name
            &&& v.regions[0].rect == v.geometry
        }),
{
    let part = Rectangle { loc: Point { x: 0, y: 0 }, size: output.mode.unwrap() };
    law_region_place(output, part);
    let t = m.create_default(output);
    assert(t.outputs.drop_last() =~= m.outputs);
}

/// A part of the configuration text that names an output that is there, and a rectangle, adds a
/// virtual output for that part of the output; any other adds nothing.
pub proof fn law_load_spec(m: ManagerView, spec: Seq<char>, physical: Seq<OutputView>)
    requires
        0 <= m.next_id < u32::MAX,
    ensures
        ({
            let t = m.load_spec(spec, physical);
            let usable = match parse_spec(spec) {
                Some((name, part)) => exists|i: int|
                    0 <= i < physical.len() && (#[trigger] physical[i]).name == name,
                None => false,
            };
            &&& !usable ==> t == m
            &&& usable ==> {
                let (name, part) = parse_spec(spec).unwrap();
                let v = t.outputs.last();
                &&& t.outputs.len() == m.outputs.len() + 1
                &&& t.outputs.drop_last() == m.outputs
                &&& t.next_id == m.next_id + 1
                &&& v.id.0 == m.next_id
                &&& v.active is None
                &&& v.config == seq![(name, part)]
                &&& v.regions.len() == 1
                &&& v.regions[0].name == name
                &&& v.geometry == v.regions[0].rect
                &&& exists|i: int|
                    0 <= i < physical.len() && (#[trigger] physical[i]).name == name
                        && v.regions[0] == region_of(physical[i], part)
            }
        }),
{
    match parse_spec(spec) {
        Some((name, part)) => {
            law_lookup(physical, name, 0);
            match lookup_output(physical, name) {
                Some(k) => {
                    let t = m.load_spec(spec, physical);
                    assert(t.outputs.drop_last() =~= m.outputs);
                    assert(t.outputs.last().regions[0] == region_of(physical[k], part));
                },
                None => {
                    if exists|i: int|
                        0 <= i < physical.len() && (#[trigger] physical[i]).name == name {
                        lemma_listed_found(physical, name);
                    }
                },
            }
        },
        None => {},
    }
}

proof fn lemma_listed_found(outputs: Seq<OutputView>, name: Seq<char>)
    requires
        exists|i: int| 0 <= i < outputs.len() && (#[trigger] outputs[i]).name == name,
    ensures
        lookup_output(outputs, name) is Some,
    decreases outputs.len(),
{
    let i = choose|i: int| 0 <= i < outputs.len() && (#[trigger] outputs[i]).name == name;
    if outputs.last().name != name {
        assert(i < outputs.len() - 1);
        assert(outputs.drop_last()[i].name == name);
        lemma_listed_found(outputs.drop_last(), name);
    }
}

/// The parts of the configuration text are used in order, and then each output that none of them
/// names, well-formed or not, is added whole, in order.
pub proof fn law_load_order(
    m: ManagerView,
    specs: Seq<Seq<char>>,
    spec: Seq<char>,
    physical: Seq<OutputView>,
    k: int,
)
    requires
        0 < k <= physical.len(),
    ensures
        m.load_specs(Seq::empty(), physical) == m,
        m.load_specs(specs.push(spec), physical) == m.load_specs(specs, physical).load_spec(
            spec,
            physical,
        ),
        m.load_rest(specs, physical, 0) == m,
        ({
            let named = exists|i: int|
                0 <= i < specs.len() && split_spec(#[trigger] specs[i], ':')[0] == physical[k
                    - 1].name;
            &&& named ==> m.load_rest(specs, physical, k) == m.load_rest(specs, physical, k - 1)
            &&& !named ==> m.load_rest(specs, physical, k) == m.load_rest(
                specs,
                physical,
                k - 1,
            ).create_default(physical[k - 1])
        }),
{
    assert(specs.push(spec).drop_last() =~= specs);
}

/// Merging parts of outputs makes one virtual output with a region for each part, in order,
/// under the rectangle around them all.
pub proof fn law_merged(id: VirtualOutputId, parts: Seq<(OutputView, Rectangle)>, i: int)
    requires
        0 <= i < parts.len(),
    ensures
        ({
            let v = VirtualOutputView::from_merge(id, parts);
            &&& v.id == id
            &&& v.active is None
            &&& v.regions.len() == parts.len()
            &&& v.regions[i].output == parts[i].0.id
            &&& v.regions[i].name == parts[i].0.name
            &&& v.regions[i].rect == VirtualOutputView::from_split(
                id,
                parts[i].0,
                parts[i].1,
            ).geometry
            &&& covering_rect(v.regions) matches Some(rect) ==> v.geometry == rect
        }),
{
}

/// Every part of a configuration whose output is there becomes a region, in the order of the
/// configuration; a part whose output is not there is passed over.
pub proof fn law_regions_of_parts(
    config: Seq<(Seq<char>, Rectangle)>,
    outputs: Seq<OutputView>,
    i: int,
)
    requires
        0 <= i < config.len(),
    ensures
        (forall|j: int|
            0 <= j < config.len() ==> lookup_output(outputs, (#[trigger] config[j]).0) is Some) ==> {
            let regions = regions_for(config, outputs);
            &&& regions.len() == config.len()
            &&& regions[i] == region_of(
                outputs[lookup_output(outputs, config[i].0).unwrap()],
                config[i].1,
            )
        },
        lookup_output(outputs, config[i].0) is None ==> regions_for(config.remove(i), outputs)
            == regions_for(config, outputs),
    decreases config.len(),
{
    let rest = config.drop_last();
    if i < config.len() - 1 {
        law_regions_of_parts(rest, outputs, i);
        assert(config.remove(i).drop_last() =~= rest.remove(i));
        assert(config.remove(i).last() == config.last());
        assert(rest[i] == config[i]);
        assert forall|j: int| 0 <= j < rest.len() implies #[trigger] rest[j] == config[j] by {}
    } else {
        assert(config.remove(i) =~= rest);
        if rest.len() > 0 {
            law_regions_of_parts(rest, outputs, 0);
            assert forall|j: int| 0 <= j < rest.len() implies #[trigger] rest[j] == config[j] by {}
        }
    }
}

/// A virtual output that is brought up to date keeps its identifier, its configuration and the
/// workspace that it shows. Its rectangle is the one around its regions; if none is left, it stays.
pub proof fn law_updated(v: VirtualOutputView, outputs: Seq<OutputView>, i: int)
    ensures
        ({
            let u = v.update(outputs);
            &&& u.id == v.id
            &&& u.config == v.config
            &&& u.active == v.active
            &&& u.regions == regions_for(v.config, outputs)
            &&& u.regions.len() == 0 ==> u.geometry == v.geometry
            &&& 0 <= i < u.regions.len() && u.regions[i].rect.0.loc.x < i32::MAX ==> covering_rect(
                u.regions,
            ) == Some(u.geometry)
        }),
{
    let regions = v.update(outputs).regions;
    if 0 <= i < regions.len() {
        lemma_bounds_cover(regions, i);
    }
}

} // verus!
