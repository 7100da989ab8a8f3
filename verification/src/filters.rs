//! Layers and filters: the layer stack, the catalogue of filter keys, and
//! the parameter layout of each filter.
//!
//! Float parameters are held as the IEEE-754 bit patterns of `f32` values,
//! exactly as they are sent to the GPU.

use vstd::prelude::*;

use crate::fluctus::{Fluctus, Figura, F32_ONE, F32_ZERO};
use crate::status::SourceId;
use crate::util::str_eq;

verus! {

/// Bit pattern of the `f32` value `0.5`.
pub const F32_HALF: u32 = 0x3F00_0000;

/// The layer stack of a project and the last layer id handed out.
#[derive(Debug, Clone)]
pub struct LayerInfos {
    pub types: Vec<LayerType>,
    pub id_last: LayerId,
}

/// One layer: an image sequence or a filter.
#[derive(Debug, Clone)]
pub enum LayerType {
    Source(SourceInfo),
    Filter(FilterInfo),
}

/// Identifier of a layer.
#[derive(Debug, Clone, Copy, PartialEq, Eq, Structural)]
pub struct LayerId {
    pub num: usize,
}

impl LayerId {
    pub fn new(num: usize) -> (l: LayerId)
        ensures
            l.num == num,
    {
        LayerId { num }
    }
}

/// A layer that draws frames of a source. `alpha` and `speed` are `f32`
/// bit patterns.
#[derive(Debug, Clone, Copy, PartialEq, Eq, Structural)]
pub struct SourceInfo {
    pub id: LayerId,
    pub active: bool,
    pub source_id: SourceId,
    pub offset: i32,
    pub len: u32,
    pub alpha: u32,
    pub speed: u32,
}

impl SourceInfo {
    /// An active layer of `len` frames from `source_id`, offset 0, alpha 1, speed 1.
    pub fn new(id: LayerId, source_id: SourceId, len: u32) -> (s: SourceInfo)
        ensures
            s.id == id,
            s.active,
            s.source_id == source_id,
            s.offset == 0,
            s.len == len,
            s.alpha == F32_ONE,
            s.speed == F32_ONE,
    {
        SourceInfo { id, active: true, source_id, offset: 0, len, alpha: F32_ONE, speed: F32_ONE }
    }
}

/// The menu group a filter key belongs to.
#[derive(Debug, Clone, Copy, PartialEq, Eq, Structural)]
pub enum FilterCategory {
    Transform,
    ColorAdjustment,
    Dithering,
    Generating,
    BufferHandling,
    Simulation,
    Distortion,
}

/// The group of a filter key, or `None` for a key that names no filter.
pub open spec fn filter_category(key: Seq<char>) -> Option<FilterCategory> {
    if key == "flip_x"@ || key == "flip_y"@ || key == "polar_coordinate"@ || key == "transform"@ {
        Some(FilterCategory::Transform)
    } else if key == "monochrome"@ {
        Some(FilterCategory::ColorAdjustment)
    } else if key == "threshold"@ || key == "bayer_16"@ || key == "mosaïque"@ {
        Some(FilterCategory::Dithering)
    } else if key == "bg"@ || key == "seed"@ || key == "noise_input"@ {
        Some(FilterCategory::Generating)
    } else if key == "displacement_map"@ {
        Some(FilterCategory::Distortion)
    } else if key == "peter_de_jong"@ {
        Some(FilterCategory::Simulation)
    } else if key == "clear_old_buffer"@ || key == "write_to_pre_compose_buffer"@
        || key == "read_from_pre_compose_buffer"@ || key == "clear_pre_compose_buffer"@ {
        Some(FilterCategory::BufferHandling)
    } else {
        None
    }
}


/// The group of a filter key.
pub fn classify_key(key: &str) -> (c: Option<FilterCategory>)
    ensures
        c == filter_category(key@),
{
    if str_eq(key, "flip_x") || str_eq(key, "flip_y") || str_eq(key, "polar_coordinate")
        || str_eq(key, "transform") {
        Some(FilterCategory::Transform)
    } else if str_eq(key, "monochrome") {
        Some(FilterCategory::ColorAdjustment)
    } else if str_eq(key, "threshold") || str_eq(key, "bayer_16") || str_eq(key, "mosaïque") {
        Some(FilterCategory::Dithering)
    } else if str_eq(key, "bg") || str_eq(key, "seed") || str_eq(key, "noise_input") {
        Some(FilterCategory::Generating)
    } else if str_eq(key, "displacement_map") {
        Some(FilterCategory::Distortion)
    } else if str_eq(key, "peter_de_jong") {
        Some(FilterCategory::Simulation)
    } else if str_eq(key, "clear_old_buffer") || str_eq(key, "write_to_pre_compose_buffer")
        || str_eq(key, "read_from_pre_compose_buffer") || str_eq(key, "clear_pre_compose_buffer") {
        Some(FilterCategory::BufferHandling)
    } else {
        None
    }
}

/// The menu group of each filter key: `flip_x`, `flip_y`,
/// `polar_coordinate` and `transform` are transforms; `monochrome` is a
/// colour adjustment; `threshold`, `bayer_16` and `mosaïque` are
/// ditherings; `bg`, `seed` and `noise_input` generate; `displacement_map`
/// distorts; `peter_de_jong` simulates; `clear_old_buffer`,
/// `write_to_pre_compose_buffer`, `read_from_pre_compose_buffer` and
/// `clear_pre_compose_buffer` handle buffers; any other key names no filter.
pub proof fn lemma_filter_category_table(key: Seq<char>)
    ensures
        (filter_category(key) == Some(FilterCategory::Transform)) <==> (key == "flip_x"@ || key
            == "flip_y"@ || key == "polar_coordinate"@ || key == "transform"@),
        (filter_category(key) == Some(FilterCategory::ColorAdjustment)) <==> key == "monochrome"@,
        (filter_category(key) == Some(FilterCategory::Dithering)) <==> (key == "threshold"@ || key
            == "bayer_16"@ || key == "mosaïque"@),
        (filter_category(key) == Some(FilterCategory::Generating)) <==> (key == "bg"@ || key
            == "seed"@ || key == "noise_input"@),
        (filter_category(key) == Some(FilterCategory::Distortion)) <==> key == "displacement_map"@,
        (filter_category(key) == Some(FilterCategory::Simulation)) <==> key == "peter_de_jong"@,
        (filter_category(key) == Some(FilterCategory::BufferHandling)) <==> (key
            == "clear_old_buffer"@ || key == "write_to_pre_compose_buffer"@ || key
            == "read_from_pre_compose_buffer"@ || key == "clear_pre_compose_buffer"@),
        (filter_category(key) is None) <==> !(key == "flip_x"@ || key == "flip_y"@ || key
            == "polar_coordinate"@ || key == "transform"@ || key == "monochrome"@ || key
            == "threshold"@ || key == "bayer_16"@ || key == "mosaïque"@ || key == "bg"@ || key
            == "seed"@ || key == "noise_input"@ || key == "displacement_map"@ || key
            == "peter_de_jong"@ || key == "clear_old_buffer"@ || key
            == "write_to_pre_compose_buffer"@ || key == "read_from_pre_compose_buffer"@ || key
            == "clear_pre_compose_buffer"@),
{
    reveal_strlit("flip_x");
    reveal_strlit("flip_y");
    reveal_strlit("polar_coordinate");
    reveal_strlit("transform");
    reveal_strlit("monochrome");
    reveal_strlit("threshold");
    reveal_strlit("bayer_16");
    reveal_strlit("mosaïque");
    reveal_strlit("bg");
    reveal_strlit("seed");
    reveal_strlit("noise_input");
    reveal_strlit("displacement_map");
    reveal_strlit("peter_de_jong");
    reveal_strlit("clear_old_buffer");
    reveal_strlit("write_to_pre_compose_buffer");
    reveal_strlit("read_from_pre_compose_buffer");
    reveal_strlit("clear_pre_compose_buffer");
    // Keys of one length differ in a character.
    assert("transform"@[1] != "threshold"@[1]);
    assert("polar_coordinate"@[0] != "displacement_map"@[0]);
    assert("polar_coordinate"@[0] != "clear_old_buffer"@[0]);
    assert("displacement_map"@[0] != "clear_old_buffer"@[0]);
    assert("flip_x"@.len() == 6 && "flip_y"@.len() == 6 && "polar_coordinate"@.len() == 16
        && "transform"@.len() == 9);
    assert("monochrome"@.len() == 10);
    assert("threshold"@.len() == 9 && "bayer_16"@.len() == 8 && "mosaïque"@.len() == 8);
    assert("bg"@.len() == 2 && "seed"@.len() == 4 && "noise_input"@.len() == 11);
    assert("displacement_map"@.len() == 16);
    assert("peter_de_jong"@.len() == 13);
    assert("clear_old_buffer"@.len() == 16 && "write_to_pre_compose_buffer"@.len() == 27
        && "read_from_pre_compose_buffer"@.len() == 28 && "clear_pre_compose_buffer"@.len() == 24);
}

/// The filter keys found on disk, sorted into menu groups.
pub struct FilterKeys {
    pub transforms: Vec<String>,
    pub color_adjustments: Vec<String>,
    pub ditherings: Vec<String>,
    pub generatings: Vec<String>,
    pub buffer_handlings: Vec<String>,
    pub simulations: Vec<String>,
    pub distortions: Vec<String>,
}

/// The texts of a list of keys.
pub open spec fn key_texts(v: Seq<String>) -> Seq<Seq<char>> {
    v.map_values(|s: String| s@)
}

/// Position of a group among the lists of `FilterKeys`.
pub open spec fn category_index(c: FilterCategory) -> int {
    match c {
        FilterCategory::Transform => 0,
        FilterCategory::ColorAdjustment => 1,
        FilterCategory::Dithering => 2,
        FilterCategory::Generating => 3,
        FilterCategory::BufferHandling => 4,
        FilterCategory::Simulation => 5,
        FilterCategory::Distortion => 6,
    }
}

impl FilterKeys {
    /// The seven key lists, in the order of `category_index`.
    pub open spec fn lists(&self) -> Seq<Seq<Seq<char>>> {
        seq![
            key_texts(self.transforms@),
            key_texts(self.color_adjustments@),
            key_texts(self.ditherings@),
            key_texts(self.generatings@),
            key_texts(self.buffer_handlings@),
            key_texts(self.simulations@),
            key_texts(self.distortions@),
        ]
    }

    /// Every stored key names a filter of the group whose list holds it.
    pub open spec fn wf(&self) -> bool {
        forall|c: FilterCategory, j: int|
            0 <= j < self.lists()[category_index(c)].len() ==> filter_category(
                #[trigger] self.lists()[category_index(c)][j],
            ) == Some(c)
    }

    /// No keys in any group.
    pub fn new() -> (k: FilterKeys)
        ensures
            k.lists() == Seq::new(7, |i: int| Seq::<Seq<char>>::empty()),
            k.wf(),
    {
        let k = FilterKeys {
            transforms: Vec::new(),
            color_adjustments: Vec::new(),
            ditherings: Vec::new(),
            generatings: Vec::new(),
            buffer_handlings: Vec::new(),
            simulations: Vec::new(),
            distortions: Vec::new(),
        };
        assert(k.lists() =~~= Seq::new(7, |i: int| Seq::<Seq<char>>::empty()));
        k
    }

    /// Files `key` under its group. Returns whether the key names a filter;
    /// an unknown key changes nothing.
    pub fn add_key(&mut self, key: &str) -> (filed: bool)
        ensures
            old(self).wf() ==> final(self).wf(),
            filed == (filter_category(key@) is Some),
            match filter_category(key@) {
                Some(c) => final(self).lists() == old(self).lists().update(
                    category_index(c),
                    old(self).lists()[category_index(c)].push(key@),
                ),
                None => final(self).lists() == old(self).lists(),
            },
    {
        let ghost before = self.lists();
        let c = classify_key(key);
        let owned = key.to_owned();
        match c {
            Some(FilterCategory::Transform) => {
                self.transforms.push(owned);
            },
            Some(FilterCategory::ColorAdjustment) => {
                self.color_adjustments.push(owned);
            },
            Some(FilterCategory::Dithering) => {
                self.ditherings.push(owned);
            },
            Some(FilterCategory::Generating) => {
                self.generatings.push(owned);
            },
            Some(FilterCategory::BufferHandling) => {
                self.buffer_handlings.push(owned);
            },
            Some(FilterCategory::Simulation) => {
                self.simulations.push(owned);
            },
            Some(FilterCategory::Distortion) => {
                self.distortions.push(owned);
            },
            None => {},
        }
        match c {
            Some(cat) => {
                assert(self.lists()[category_index(cat)] =~= before[category_index(cat)].push(key@));
                assert(self.lists() =~= before.update(
                    category_index(cat),
                    before[category_index(cat)].push(key@),
                ));
            },
            None => {
                assert(self.lists() =~= before);
            },
        }
        proof {
            if old(self).wf() {
                assert forall|cc: FilterCategory, j: int|
                    0 <= j < self.lists()[category_index(cc)].len() implies filter_category(
                        #[trigger] self.lists()[category_index(cc)][j],
                    ) == Some(cc) by {
                    if j < before[category_index(cc)].len() {
                        assert(self.lists()[category_index(cc)][j] == before[category_index(cc)][j]);
                    }
                }
            }
        }
        c.is_some()
    }
}

/// Kind and bounds of one filter parameter. Float bounds are `f32` bit patterns.
#[derive(Debug, Clone, Copy, PartialEq, Eq)]
pub enum Ptype {
    Integer(Range<u32>),
    Float(Range<u32>),
    Color3,
    Color4,
}

/// One labelled parameter of a filter, with its time modulation.
#[derive(Debug, Clone)]
pub struct Pinfo {
    pub ptype: Ptype,
    pub plabel: String,
    pub fluctus: Fluctus,
}

impl Pinfo {
    fn new(ptype: Ptype, label: &str) -> (p: Pinfo)
        ensures
            p.ptype == ptype,
            p.plabel@ == label@,
            p.fluctus == (Fluctus { figura: Figura::Constant, cycle: F32_ONE, phase: F32_ZERO }),
    {
        Pinfo { ptype, plabel: label.to_owned(), fluctus: Fluctus::new() }
    }
}

/// An inclusive range of parameter values.
#[derive(Debug, Clone, Copy, PartialEq, Eq)]
pub struct Range<N> {
    pub from: N,
    pub to: N,
}

impl<N> Range<N> {
    pub fn new(from: N, to: N) -> (r: Range<N>)
        ensures
            r.from == from,
            r.to == to,
    {
        Range { from, to }
    }
}

/// A filter layer: its key, twenty parameter words, the labelled parameter
/// layout, its id and whether it is active.
#[derive(Debug, Clone)]
pub struct FilterInfo {
    pub key: String,
    pub parameter: [u32; 20],
    pub label: Vec<Pinfo>,
    pub id: LayerId,
    pub active: bool,
}

/// Number of parameter words a parameter of kind `p` takes.
pub open spec fn ptype_width(p: Ptype) -> nat {
    match p {
        Ptype::Integer(_) => 1,
        Ptype::Float(_) => 1,
        Ptype::Color3 => 3,
        Ptype::Color4 => 4,
    }
}

/// Number of parameter words taken by `labels`, laid out one after another.
pub open spec fn labels_width(labels: Seq<Pinfo>) -> nat
    decreases labels.len(),
{
    if labels.len() == 0 {
        0
    } else {
        labels_width(labels.drop_last()) + ptype_width(labels.last().ptype)
    }
}

/// The parameter word of every float parameter of `labels`, in order, with
/// its modulation. Label `i` starts at word `labels_width(labels.take(i))`.
pub open spec fn float_slots_of(labels: Seq<Pinfo>) -> Seq<(usize, Fluctus)>
    decreases labels.len(),
{
    if labels.len() == 0 {
        Seq::empty()
    } else {
        let prev = float_slots_of(labels.drop_last());
        if labels.last().ptype is Float {
            prev.push((labels_width(labels.drop_last()) as usize, labels.last().fluctus))
        } else {
            prev
        }
    }
}

/// Every float parameter of `labels` starts inside the twenty parameter words.
pub open spec fn floats_fit(labels: Seq<Pinfo>) -> bool {
    forall|i: int|
        0 <= i < labels.len() && (#[trigger] labels[i]).ptype is Float ==> labels_width(
            labels.take(i),
        ) < 20
}

/// The parameter layout of a label sequence: kinds and label texts.
pub open spec fn label_shapes(labels: Seq<Pinfo>) -> Seq<(Ptype, Seq<char>)> {
    labels.map_values(|p: Pinfo| (p.ptype, p.plabel@))
}

/// Twenty zero words (the bits of `0.0f32`).
pub open spec fn zero_parameters() -> Seq<u32> {
    Seq::new(20, |i: int| 0u32)
}

/// Initial parameter words of the filter named `key`.
pub open spec fn default_parameters(key: Seq<char>) -> Seq<u32> {
    let z = zero_parameters();
    if key == "monochrome"@ {
        z.update(0, F32_ONE).update(1, F32_HALF).update(2, F32_HALF).update(3, F32_HALF)
    } else if key == "threshold"@ {
        z.update(0, F32_HALF).update(3, F32_ONE).update(4, F32_ONE).update(5, F32_ONE).update(
            6,
            F32_ONE,
        )
    } else if key == "bayer_16"@ {
        z.update(3, F32_ONE).update(4, F32_ONE).update(5, F32_ONE).update(6, F32_ONE).update(
            7,
            F32_ONE,
        )
    } else if key == "bg"@ {
        z.update(3, 0x3E99_999A)
    } else if key == "peter_de_jong"@ {
        z.update(0, 0x3FD2_0C4A).update(1, 0x3FF3_74BC).update(2, 0x3EA1_CAC1).update(
            3,
            0x3FC3_3333,
        ).update(4, F32_ONE).update(5, F32_ONE).update(6, 0x3ECC_CCCD)
    } else if key == "read_from_pre_compose_buffer"@ || key == "clear_pre_compose_buffer"@ {
        z.update(1, F32_ONE)
    } else if key == "transform"@ {
        z.update(2, F32_ONE).update(3, F32_ONE)
    } else {
        z
    }
}

/// The range `0.0..=1.0` as `f32` bit patterns.
pub open spec fn unit_range() -> Range<u32> {
    Range { from: F32_ZERO, to: F32_ONE }
}

/// Initial parameter layout (kinds and labels) of the filter named `key`.
pub open spec fn default_labels(key: Seq<char>) -> Seq<(Ptype, Seq<char>)> {
    let f = Ptype::Float(unit_range());
    if key == "monochrome"@ {
        seq![(f, "strongness"@), (Ptype::Color3, "input_rgb"@)]
    } else if key == "threshold"@ {
        seq![(f, "threshold"@), (Ptype::Color4, "color1"@), (Ptype::Color4, "color2"@)]
    } else if key == "bayer_16"@ {
        seq![(Ptype::Color4, "color1"@), (Ptype::Color4, "color2"@)]
    } else if key == "bg"@ {
        seq![(Ptype::Color4, "color1"@)]
    } else if key == "polar_coordinate"@ {
        seq![(f, "radius max"@), (f, "theta_offset"@)]
    } else if key == "peter_de_jong"@ {
        let ten = Ptype::Float(Range { from: 0xC120_0000, to: 0x4120_0000 });
        seq![
            (ten, "a"@),
            (ten, "b"@),
            (ten, "c"@),
            (ten, "d"@),
            (f, "mul_x"@),
            (f, "mul_y"@),
            (f, "clear strength"@),
        ]
    } else if key == "noise_input"@ {
        seq![(f, "density"@)]
    } else if key == "seed"@ {
        seq![
            (Ptype::Integer(Range { from: 0, to: 1919 }), "seed_w"@),
            (Ptype::Integer(Range { from: 0, to: 1079 }), "seed_h"@),
        ]
    } else if key == "displacement_map"@ {
        let d = Ptype::Float(Range { from: 0xC59C_4000, to: 0x459C_4000 });
        seq![
            (d, "displacement x"@),
            (d, "displacement y"@),
            (Ptype::Integer(Range { from: 0, to: 10 }), "source buffer index"@),
        ]
    } else if key == "mosaïque"@ {
        seq![
            (Ptype::Float(Range { from: F32_ONE, to: 0x44F0_0000 }), "cell width"@),
            (Ptype::Float(Range { from: F32_ONE, to: 0x4487_0000 }), "cell heigght"@),
        ]
    } else if key == "write_to_pre_compose_buffer"@ || key == "clear_pre_compose_buffer"@ {
        seq![(Ptype::Integer(Range { from: 0, to: 9 }), "buffer index"@)]
    } else if key == "read_from_pre_compose_buffer"@ {
        seq![(Ptype::Integer(Range { from: 0, to: 9 }), "buffer index"@), (f, "alpha"@)]
    } else if key == "transform"@ {
        let ten = Ptype::Float(Range { from: 0xC120_0000, to: 0x4120_0000 });
        seq![
            (Ptype::Float(Range { from: 0xC4F0_0000, to: 0x44F0_0000 }), "parallel x"@),
            (Ptype::Float(Range { from: 0xC487_0000, to: 0x4487_0000 }), "parallel y"@),
            (ten, "expansion x"@),
            (ten, "expansion y"@),
            (f, "rotate"@),
        ]
    } else {
        seq![]
    }
}

/// The initial parameter words of the filter named `key`.
fn default_parameter_array(key: &str) -> (init: [u32; 20])
    ensures
        init@ == default_parameters(key@),
{
    let mut init: [u32; 20] = [0u32; 20];
    assert(init@ =~= zero_parameters());
    if str_eq(key, "monochrome") {
        init[0] = F32_ONE;
        init[1] = F32_HALF;
        init[2] = F32_HALF;
        init[3] = F32_HALF;
    } else if str_eq(key, "threshold") {
        init[0] = F32_HALF;
        init[3] = F32_ONE;
        init[4] = F32_ONE;
        init[5] = F32_ONE;
        init[6] = F32_ONE;
    } else if str_eq(key, "bayer_16") {
        init[3] = F32_ONE;
        init[4] = F32_ONE;
        init[5] = F32_ONE;
        init[6] = F32_ONE;
        init[7] = F32_ONE;
    } else if str_eq(key, "bg") {
        init[3] = 0x3E99_999A;
    } else if str_eq(key, "peter_de_jong") {
        init[0] = 0x3FD2_0C4A;
        init[1] = 0x3FF3_74BC;
        init[2] = 0x3EA1_CAC1;
        init[3] = 0x3FC3_3333;
        init[4] = F32_ONE;
        init[5] = F32_ONE;
        init[6] = 0x3ECC_CCCD;
    } else if str_eq(key, "read_from_pre_compose_buffer") || str_eq(key, "clear_pre_compose_buffer") {
        init[1] = F32_ONE;
    } else if str_eq(key, "transform") {
        init[2] = F32_ONE;
        init[3] = F32_ONE;
    }
    assert(init@ =~= default_parameters(key@));
    init
}


/// Appending a label adds its width, and keeps every float parameter inside
/// the parameter block when the new one starts inside it too.
pub proof fn lemma_push_label(labels: Seq<Pinfo>, p: Pinfo)
    ensures
        labels_width(labels.push(p)) == labels_width(labels) + ptype_width(p.ptype),
        floats_fit(labels) && (p.ptype is Float ==> labels_width(labels) < 20) ==> floats_fit(
            labels.push(p),
        ),
{
    let l2 = labels.push(p);
    assert(l2.drop_last() =~= labels);
    if floats_fit(labels) && (p.ptype is Float ==> labels_width(labels) < 20) {
        assert forall|i: int|
            0 <= i < l2.len() && (#[trigger] l2[i]).ptype is Float implies labels_width(l2.take(i))
            < 20 by {
            if i < labels.len() {
                assert(l2.take(i) =~= labels.take(i));
                assert(l2[i] == labels[i]);
            } else {
                assert(l2.take(i) =~= labels);
            }
        }
    }
}

/// Every modulated slot belongs to a float parameter of the filter: slot
/// `k` is the first word of some float label `j` (the words of the labels
/// before it) and carries the modulation stored on that label.
pub proof fn lemma_float_slot_has_label(labels: Seq<Pinfo>, k: int)
    requires
        0 <= k < float_slots_of(labels).len(),
    ensures
        exists|j: int|
            0 <= j < labels.len() && (#[trigger] labels[j]).ptype is Float && float_slots_of(
                labels,
            )[k] == (labels_width(labels.take(j)) as usize, labels[j].fluctus),
    decreases labels.len(),
{
    let d = labels.drop_last();
    let prev = float_slots_of(d);
    if k < prev.len() {
        lemma_float_slot_has_label(d, k);
        let j = choose|j: int|
            0 <= j < d.len() && (#[trigger] d[j]).ptype is Float && prev[k] == (
            labels_width(d.take(j)) as usize, d[j].fluctus);
        assert(d.take(j) =~= labels.take(j));
        assert(d[j] == labels[j]);
    } else {
        let j = labels.len() - 1;
        assert(labels.take(j) =~= d);
        assert(labels[j] == labels.last());
    }
}

/// Every float parameter of the filter is modulated: some slot is its first
/// word and carries the modulation stored on that label.
pub proof fn lemma_float_label_has_slot(labels: Seq<Pinfo>, j: int)
    requires
        0 <= j < labels.len(),
        labels[j].ptype is Float,
    ensures
        exists|k: int|
            0 <= k < float_slots_of(labels).len() && #[trigger] float_slots_of(labels)[k] == (
            labels_width(labels.take(j)) as usize, labels[j].fluctus),
    decreases labels.len(),
{
    let d = labels.drop_last();
    let prev = float_slots_of(d);
    if j < labels.len() - 1 {
        assert(d.take(j) =~= labels.take(j));
        assert(d[j] == labels[j]);
        lemma_float_label_has_slot(d, j);
        let k = choose|k: int|
            0 <= k < prev.len() && #[trigger] prev[k] == (labels_width(d.take(j)) as usize, d[j].fluctus);
        assert(float_slots_of(labels)[k] == prev[k]);
    } else {
        assert(labels.take(j) =~= d);
        assert(float_slots_of(labels)[prev.len() as int] == (
        labels_width(labels.take(j)) as usize, labels[j].fluctus));
    }
}

/// The number of float parameters among `labels`.
pub open spec fn float_count(labels: Seq<Pinfo>) -> nat
    decreases labels.len(),
{
    if labels.len() == 0 {
        0
    } else {
        float_count(labels.drop_last()) + if labels.last().ptype is Float {
            1nat
        } else {
            0nat
        }
    }
}

/// There is one slot per float parameter, and the slot of the `n`-th float
/// label (counting from 0) is the `n`-th slot: it is that label's first word
/// (the words of the labels before it) and carries the modulation stored on
/// that label.
pub proof fn lemma_float_slots_by_label(labels: Seq<Pinfo>)
    ensures
        float_slots_of(labels).len() == float_count(labels),
        forall|j: int|
            0 <= j < labels.len() && (#[trigger] labels[j]).ptype is Float ==> float_count(
                labels.take(j),
            ) < float_slots_of(labels).len() && float_slots_of(labels)[float_count(labels.take(j)) as int]
                == (labels_width(labels.take(j)) as usize, labels[j].fluctus),
    decreases labels.len(),
{
    if labels.len() > 0 {
        let d = labels.drop_last();
        lemma_float_slots_by_label(d);
        let prev = float_slots_of(d);
        let cur = float_slots_of(labels);
        assert forall|j: int|
            0 <= j < labels.len() && (#[trigger] labels[j]).ptype is Float implies float_count(
                labels.take(j),
            ) < cur.len() && cur[float_count(labels.take(j)) as int] == (labels_width(labels.take(j))
                as usize, labels[j].fluctus) by {
            if j < d.len() {
                assert(d.take(j) =~= labels.take(j));
                assert(d[j] == labels[j]);
                assert(cur[float_count(labels.take(j)) as int] == prev[float_count(labels.take(j)) as int]);
            } else {
                assert(labels.take(j) =~= d);
                assert(labels[j] == labels.last());
            }
        }
    }
}

/// When every float parameter starts inside the parameter block, the slots
/// come in label order: their words strictly increase, and each lies before
/// the end of the labels' words.
pub proof fn lemma_float_slots_ordered(labels: Seq<Pinfo>)
    requires
        floats_fit(labels),
    ensures
        forall|k: int|
            0 <= k < float_slots_of(labels).len() ==> (#[trigger] float_slots_of(labels)[k]).0
                < labels_width(labels),
        forall|a: int, b: int|
            0 <= a < b < float_slots_of(labels).len() ==> (#[trigger] float_slots_of(labels)[a]).0
                < (#[trigger] float_slots_of(labels)[b]).0,
    decreases labels.len(),
{
    if labels.len() > 0 {
        let d = labels.drop_last();
        let prev = float_slots_of(d);
        let cur = float_slots_of(labels);
        assert(floats_fit(d)) by {
            assert forall|i: int| 0 <= i < d.len() && (#[trigger] d[i]).ptype is Float implies labels_width(
                d.take(i),
            ) < 20 by {
                assert(d[i] == labels[i]);
                assert(d.take(i) =~= labels.take(i));
            }
        }
        lemma_float_slots_ordered(d);
        assert(labels_width(labels) == labels_width(d) + ptype_width(labels.last().ptype));
        if labels.last().ptype is Float {
            let j = labels.len() - 1;
            assert(labels.take(j) =~= d);
            assert(labels[j] == labels.last());
            assert(labels_width(d) < 20);
            assert(cur[prev.len() as int].0 == labels_width(d));
            assert forall|k: int| 0 <= k < cur.len() implies (#[trigger] cur[k]).0 < labels_width(
                labels,
            ) by {
                if k < prev.len() {
                    assert(cur[k] == prev[k]);
                }
            }
            assert forall|a: int, b: int| 0 <= a < b < cur.len() implies (#[trigger] cur[a]).0 < (
            #[trigger] cur[b]).0 by {
                assert(cur[a] == prev[a]);
                if b < prev.len() {
                    assert(cur[b] == prev[b]);
                }
            }
        }
    }
}

/// Appends a parameter of kind `ptype` labelled `text`, with neutral modulation.
fn push_label(label: &mut Vec<Pinfo>, ptype: Ptype, text: &str)
    requires
        ptype is Float ==> labels_width(old(label)@) < 20,
    ensures
        final(label)@.len() == old(label)@.len() + 1,
        final(label)@.drop_last() == old(label)@,
        final(label)@.last().ptype == ptype,
        final(label)@.last().plabel@ == text@,
        final(label)@.last().fluctus == (Fluctus { figura: Figura::Constant, cycle: F32_ONE, phase: F32_ZERO }),
        labels_width(final(label)@) == labels_width(old(label)@) + ptype_width(ptype),
        floats_fit(old(label)@) ==> floats_fit(final(label)@),
{
    let p = Pinfo::new(ptype, text);
    proof {
        lemma_push_label(label@, p);
        assert(label@.push(p).drop_last() =~= label@);
    }
    label.push(p);
}

/// The initial parameter layout of the filter named `key`.
fn default_label_vec(key: &str) -> (label: Vec<Pinfo>)
    ensures
        label_shapes(label@) == default_labels(key@),
        forall|i: int|
            0 <= i < label@.len() ==> (#[trigger] label@[i]).fluctus == (Fluctus {
                figura: Figura::Constant,
                cycle: F32_ONE,
                phase: F32_ZERO,
            }),
        floats_fit(label@),
        labels_width(label@) <= 20,
{
    let f = Ptype::Float(Range::new(F32_ZERO, F32_ONE));
    let ten = Ptype::Float(Range::new(0xC120_0000u32, 0x4120_0000u32));
    let mut label: Vec<Pinfo> = Vec::new();
    assert(label@.len() == 0);
    if str_eq(key, "monochrome") {
        push_label(&mut label, f, "strongness");
        push_label(&mut label, Ptype::Color3, "input_rgb");
    } else if str_eq(key, "threshold") {
        push_label(&mut label, f, "threshold");
        push_label(&mut label, Ptype::Color4, "color1");
        push_label(&mut label, Ptype::Color4, "color2");
    } else if str_eq(key, "bayer_16") {
        push_label(&mut label, Ptype::Color4, "color1");
        push_label(&mut label, Ptype::Color4, "color2");
    } else if str_eq(key, "bg") {
        push_label(&mut label, Ptype::Color4, "color1");
    } else if str_eq(key, "polar_coordinate") {
        push_label(&mut label, f, "radius max");
        push_label(&mut label, f, "theta_offset");
    } else if str_eq(key, "peter_de_jong") {
        push_label(&mut label, ten, "a");
        push_label(&mut label, ten, "b");
        push_label(&mut label, ten, "c");
        push_label(&mut label, ten, "d");
        push_label(&mut label, f, "mul_x");
        push_label(&mut label, f, "mul_y");
        push_label(&mut label, f, "clear strength");
    } else if str_eq(key, "noise_input") {
        push_label(&mut label, f, "density");
    } else if str_eq(key, "seed") {
        push_label(&mut label, Ptype::Integer(Range::new(0u32, 1919u32)), "seed_w");
        push_label(&mut label, Ptype::Integer(Range::new(0u32, 1079u32)), "seed_h");
    } else if str_eq(key, "displacement_map") {
        let d = Ptype::Float(Range::new(0xC59C_4000u32, 0x459C_4000u32));
        push_label(&mut label, d, "displacement x");
        push_label(&mut label, d, "displacement y");
        push_label(&mut label, Ptype::Integer(Range::new(0u32, 10u32)), "source buffer index");
    } else if str_eq(key, "mosaïque") {
        push_label(&mut label, Ptype::Float(Range::new(F32_ONE, 0x44F0_0000u32)), "cell width");
        push_label(&mut label, Ptype::Float(Range::new(F32_ONE, 0x4487_0000u32)), "cell heigght");
    } else if str_eq(key, "write_to_pre_compose_buffer") || str_eq(key, "clear_pre_compose_buffer") {
        push_label(&mut label, Ptype::Integer(Range::new(0u32, 9u32)), "buffer index");
    } else if str_eq(key, "read_from_pre_compose_buffer") {
        push_label(&mut label, Ptype::Integer(Range::new(0u32, 9u32)), "buffer index");
        push_label(&mut label, f, "alpha");
    } else if str_eq(key, "transform") {
        push_label(&mut label, Ptype::Float(Range::new(0xC4F0_0000u32, 0x44F0_0000u32)), "parallel x");
        push_label(&mut label, Ptype::Float(Range::new(0xC487_0000u32, 0x4487_0000u32)), "parallel y");
        push_label(&mut label, ten, "expansion x");
        push_label(&mut label, ten, "expansion y");
        push_label(&mut label, f, "rotate");
    }
    assert(label_shapes(label@) =~= default_labels(key@));
    label
}

/// `f` is the filter layer that `FilterInfo::new(key, id)` creates: key,
/// initial parameters and layout of that filter, neutral modulations, active.
pub open spec fn is_new_filter(f: FilterInfo, key: Seq<char>, id: LayerId) -> bool {
    &&& f.key@ == key
    &&& f.parameter@ == default_parameters(key)
    &&& label_shapes(f.label@) == default_labels(key)
    &&& forall|i: int|
        0 <= i < f.label@.len() ==> (#[trigger] f.label@[i]).fluctus == (Fluctus {
            figura: Figura::Constant,
            cycle: F32_ONE,
            phase: F32_ZERO,
        })
    &&& f.id == id
    &&& f.active
}

impl FilterInfo {
    /// A fresh, active filter layer of kind `key_str` with id `id`, holding
    /// that filter's initial parameters and parameter layout.
    pub fn new(key_str: &str, id: LayerId) -> (f: FilterInfo)
        requires
            filter_category(key_str@) is Some,
        ensures
            is_new_filter(f, key_str@, id),
            floats_fit(f.label@),
            labels_width(f.label@) <= 20,
    {
        let parameter = default_parameter_array(key_str);
        let label = default_label_vec(key_str);
        FilterInfo { key: key_str.to_owned(), parameter, label, id, active: true }
    }

    /// The parameter word and modulation of every float parameter, in order.
    /// These are the words that are modulated over time before each pass.
    pub fn float_slots(&self) -> (slots: Vec<(usize, Fluctus)>)
        requires
            floats_fit(self.label@),
            self.label@.len() <= usize::MAX / 4,
        ensures
            slots@ == float_slots_of(self.label@),
            forall|k: int| 0 <= k < slots@.len() ==> (#[trigger] slots@[k]).0 < 20,
            slots@.len() == float_count(self.label@),
            forall|j: int|
                0 <= j < self.label@.len() && (#[trigger] self.label@[j]).ptype is Float
                    ==> slots@[float_count(self.label@.take(j)) as int] == (labels_width(
                    self.label@.take(j),
                ) as usize, self.label@[j].fluctus),
            forall|a: int, b: int|
                0 <= a < b < slots@.len() ==> (#[trigger] slots@[a]).0 < (#[trigger] slots@[b]).0,
    {
        let labels = &self.label;
        let mut slots: Vec<(usize, Fluctus)> = Vec::new();
        let mut count: usize = 0;
        let mut i: usize = 0;
        while i < labels.len()
            invariant
                i <= labels@.len(),
                labels@.len() <= usize::MAX / 4,
                floats_fit(labels@),
                count == labels_width(labels@.take(i as int)),
                count <= 4 * i,
                slots@ == float_slots_of(labels@.take(i as int)),
                forall|k: int| 0 <= k < slots@.len() ==> (#[trigger] slots@[k]).0 < 20,
            decreases labels@.len() - i,
        {
            let ghost prefix = labels@.take(i as int);
            assert(labels@.take(i + 1).drop_last() =~= prefix);
            assert(labels@.take(i + 1).last() == labels@[i as int]);
            let p = &labels[i];
            match p.ptype {
                Ptype::Float(_) => {
                    assert(labels@[i as int].ptype is Float);
                    slots.push((count, p.fluctus));
                    count = count + 1;
                },
                Ptype::Integer(_) => {
                    count = count + 1;
                },
                Ptype::Color3 => {
                    count = count + 3;
                },
                Ptype::Color4 => {
                    count = count + 4;
                },
            }
            i = i + 1;
        }
        assert(labels@.take(i as int) =~= labels@);
        proof {
            lemma_float_slots_ordered(labels@);
            lemma_float_slots_by_label(labels@);
        }
        slots
    }
}

/// The id of a layer.
pub open spec fn layer_id(l: LayerType) -> LayerId {
    match l {
        LayerType::Source(s) => s.id,
        LayerType::Filter(f) => f.id,
    }
}

/// `types` with the entries at `deletes` removed, the last-listed index first.
pub open spec fn apply_removals(types: Seq<LayerType>, deletes: Seq<usize>) -> Seq<LayerType>
    decreases deletes.len(),
{
    if deletes.len() == 0 {
        types
    } else {
        apply_removals(types.remove(deletes.last() as int), deletes.drop_last())
    }
}

/// Every index of `deletes`, taken last-listed first, is in range when it is used.
pub open spec fn removals_in_range(types: Seq<LayerType>, deletes: Seq<usize>) -> bool
    decreases deletes.len(),
{
    if deletes.len() == 0 {
        true
    } else {
        deletes.last() < types.len() && removals_in_range(
            types.remove(deletes.last() as int),
            deletes.drop_last(),
        )
    }
}

/// `types` with the entries at `i` and `j` exchanged.
pub open spec fn swapped<T>(types: Seq<T>, i: int, j: int) -> Seq<T> {
    types.update(i, types[j]).update(j, types[i])
}

/// `types` with the pairs of `swaps` exchanged, in list order.
pub open spec fn apply_swaps(types: Seq<LayerType>, swaps: Seq<(usize, usize)>) -> Seq<LayerType>
    decreases swaps.len(),
{
    if swaps.len() == 0 {
        types
    } else {
        let t = apply_swaps(types, swaps.drop_last());
        swapped(t, swaps.last().0 as int, swaps.last().1 as int)
    }
}

/// Exchanges the entries at `i` and `j`.
fn swap_entries(v: &mut Vec<LayerType>, i: usize, j: usize)
    requires
        i < old(v)@.len(),
        j < old(v)@.len(),
    ensures
        final(v)@ == swapped(old(v)@, i as int, j as int),
{
    let ghost s = v@;
    if i == j {
        assert(swapped(s, i as int, j as int) =~= s);
        return;
    }
    let lo = if i < j { i } else { j };
    let hi = if i < j { j } else { i };
    let b = v.remove(hi);
    let a = v.remove(lo);
    v.insert(lo, b);
    v.insert(hi, a);
    assert(v@ =~= swapped(s, i as int, j as int));
}

impl LayerInfos {
    /// Layer ids are distinct and none is above `id_last`.
    pub open spec fn ids_wf(&self) -> bool {
        &&& forall|i: int|
            0 <= i < self.types@.len() ==> (#[trigger] layer_id(self.types@[i])).num
                <= self.id_last.num
        &&& forall|i: int, j: int|
            0 <= i < self.types@.len() && 0 <= j < self.types@.len() && i != j ==> layer_id(
                #[trigger] self.types@[i],
            ) != layer_id(#[trigger] self.types@[j])
    }

    /// Appends a new filter layer of kind `key` under the next layer id.
    pub fn add_filter(&mut self, key: &str)
        requires
            old(self).id_last.num < usize::MAX,
            filter_category(key@) is Some,
        ensures
            final(self).id_last.num == old(self).id_last.num + 1,
            final(self).types@.len() == old(self).types@.len() + 1,
            final(self).types@.drop_last() == old(self).types@,
            final(self).types@.last() matches LayerType::Filter(f) && is_new_filter(
                f,
                key@,
                final(self).id_last,
            ),
            old(self).ids_wf() ==> final(self).ids_wf(),
    {
        self.id_last.num = self.id_last.num + 1;
        let f = FilterInfo::new(key, LayerId::new(self.id_last.num));
        let ghost before = self.types@;
        self.types.push(LayerType::Filter(f));
        assert(self.types@.drop_last() =~= before);
    }

    /// Appends a new layer showing all frames of `source`, under the next
    /// layer id.
    pub fn add_source(&mut self, source: &crate::status::Source)
        requires
            old(self).id_last.num < usize::MAX,
            crate::status::frame_count_defined(source.from, source.to),
        ensures
            final(self).id_last.num == old(self).id_last.num + 1,
            final(self).types@.len() == old(self).types@.len() + 1,
            final(self).types@.drop_last() == old(self).types@,
            final(self).types@.last() matches LayerType::Source(s) && s.id == final(self).id_last
                && s.active && s.source_id == source.id && s.offset == 0
                && s.len == crate::status::frame_count(source.from, source.to)
                && s.alpha == F32_ONE && s.speed == F32_ONE,
            old(self).ids_wf() ==> final(self).ids_wf(),
    {
        self.id_last.num = self.id_last.num + 1;
        let len = source.frame_len();
        let s = SourceInfo::new(self.id_last, source.id, len);
        let ghost before = self.types@;
        self.types.push(LayerType::Source(s));
        assert(self.types@.drop_last() =~= before);
    }

    /// Applies the edits collected while drawing the layer list: removes the
    /// layers at `deletes` (last-listed first), then exchanges the pairs of
    /// `swaps` in order.
    pub fn apply_edits(&mut self, deletes: &Vec<usize>, swaps: &Vec<(usize, usize)>)
        requires
            removals_in_range(old(self).types@, deletes@),
            forall|k: int|
                0 <= k < swaps@.len() ==> (#[trigger] swaps@[k]).0 < apply_removals(
                    old(self).types@,
                    deletes@,
                ).len() && swaps@[k].1 < apply_removals(old(self).types@, deletes@).len(),
        ensures
            final(self).types@ == apply_swaps(apply_removals(old(self).types@, deletes@), swaps@),
            final(self).id_last == old(self).id_last,
            old(self).ids_wf() ==> final(self).ids_wf(),
    {
        let ghost start = self.types@;
        let mut k: usize = deletes.len();
        assert(deletes@.take(k as int) =~= deletes@);
        while k > 0
            invariant
                k <= deletes@.len(),
                removals_in_range(self.types@, deletes@.take(k as int)),
                apply_removals(self.types@, deletes@.take(k as int)) == apply_removals(start, deletes@),
                self.id_last == old(self).id_last,
                old(self).ids_wf() ==> self.ids_wf(),
            decreases k,
        {
            let ghost ds = deletes@.take(k as int);
            assert(ds.drop_last() =~= deletes@.take(k - 1));
            let i = deletes[k - 1];
            let ghost t = self.types@;
            self.types.remove(i);
            proof {
                if old(self).ids_wf() {
                    assert forall|a: int, b: int|
                        0 <= a < self.types@.len() && 0 <= b < self.types@.len() && a != b
                        implies layer_id(#[trigger] self.types@[a]) != layer_id(
                        #[trigger] self.types@[b],
                    ) by {
                        let a0 = if a < i { a } else { a + 1 };
                        let b0 = if b < i { b } else { b + 1 };
                        assert(self.types@[a] == t[a0]);
                        assert(self.types@[b] == t[b0]);
                    }
                    assert forall|a: int| 0 <= a < self.types@.len() implies (#[trigger] layer_id(
                        self.types@[a],
                    )).num <= self.id_last.num by {
                        let a0 = if a < i { a } else { a + 1 };
                        assert(self.types@[a] == t[a0]);
                    }
                }
            }
            k = k - 1;
        }
        assert(deletes@.take(0) =~= Seq::<usize>::empty());
        let ghost mid = self.types@;
        let mut m: usize = 0;
        while m < swaps.len()
            invariant
                m <= swaps@.len(),
                mid == apply_removals(start, deletes@),
                self.types@.len() == mid.len(),
                self.types@ == apply_swaps(mid, swaps@.take(m as int)),
                forall|q: int|
                    0 <= q < swaps@.len() ==> (#[trigger] swaps@[q]).0 < mid.len() && swaps@[q].1
                        < mid.len(),
                self.id_last == old(self).id_last,
                old(self).ids_wf() ==> self.ids_wf(),
            decreases swaps@.len() - m,
        {
            assert(swaps@.take(m + 1).drop_last() =~= swaps@.take(m as int));
            let (i, j) = swaps[m];
            let ghost t = self.types@;
            swap_entries(&mut self.types, i, j);
            proof {
                if old(self).ids_wf() {
                    assert forall|a: int, b: int|
                        0 <= a < self.types@.len() && 0 <= b < self.types@.len() && a != b
                        implies layer_id(#[trigger] self.types@[a]) != layer_id(
                        #[trigger] self.types@[b],
                    ) by {
                        let a0 = if a == i { j as int } else if a == j { i as int } else { a };
                        let b0 = if b == i { j as int } else if b == j { i as int } else { b };
                        assert(self.types@[a] == t[a0]);
                        assert(self.types@[b] == t[b0]);
                    }
                    assert forall|a: int| 0 <= a < self.types@.len() implies (#[trigger] layer_id(
                        self.types@[a],
                    )).num <= self.id_last.num by {
                        let a0 = if a == i { j as int } else if a == j { i as int } else { a };
                        assert(self.types@[a] == t[a0]);
                    }
                }
            }
            m = m + 1;
        }
        assert(swaps@.take(m as int) =~= swaps@);
    }
}

/// Every key that a well-formed `FilterKeys` holds names a filter, so the
/// filter menus only offer keys that `FilterInfo::new` accepts, and it files
/// the key under the group its list stands for.
pub proof fn lemma_filed_keys_create_filters(keys: &FilterKeys, c: FilterCategory, j: int)
    requires
        keys.wf(),
        0 <= j < keys.lists()[category_index(c)].len(),
    ensures
        filter_category(keys.lists()[category_index(c)][j]) == Some(c),
{
}

} // verus!
