use gyoretu::filters::{
    classify_key, FilterCategory, FilterInfo, FilterKeys, LayerId, LayerInfos, LayerType, Ptype,
    Range, SourceInfo,
};
use gyoretu::fluctus::Figura;
use gyoretu::status::{Source, SourceId};

fn bits(x: f32) -> u32 {
    x.to_bits()
}

#[test]
fn layer_id_and_range_constructors() {
    assert_eq!(LayerId::new(7).num, 7);
    let r = Range::new(3u32, 9u32);
    assert_eq!((r.from, r.to), (3, 9));
}

#[test]
fn source_info_new_defaults() {
    let s = SourceInfo::new(LayerId::new(2), SourceId::new(5), 11);
    assert_eq!(s.id.num, 2);
    assert!(s.active);
    assert_eq!(s.source_id.num, 5);
    assert_eq!(s.offset, 0);
    assert_eq!(s.len, 11);
    assert_eq!(s.alpha, bits(1.0));
    assert_eq!(s.speed, bits(1.0));
}

#[test]
fn classify_keys_into_groups() {
    assert_eq!(classify_key("flip_x"), Some(FilterCategory::Transform));
    assert_eq!(classify_key("transform"), Some(FilterCategory::Transform));
    assert_eq!(classify_key("monochrome"), Some(FilterCategory::ColorAdjustment));
    assert_eq!(classify_key("mosaïque"), Some(FilterCategory::Dithering));
    assert_eq!(classify_key("noise_input"), Some(FilterCategory::Generating));
    assert_eq!(classify_key("displacement_map"), Some(FilterCategory::Distortion));
    assert_eq!(classify_key("peter_de_jong"), Some(FilterCategory::Simulation));
    assert_eq!(classify_key("clear_pre_compose_buffer"), Some(FilterCategory::BufferHandling));
    assert_eq!(classify_key("copy_tx2bf"), None);
    assert_eq!(classify_key(""), None);
}

#[test]
fn filter_keys_new_is_empty() {
    let k = FilterKeys::new();
    assert!(k.transforms.is_empty());
    assert!(k.color_adjustments.is_empty());
    assert!(k.ditherings.is_empty());
    assert!(k.generatings.is_empty());
    assert!(k.buffer_handlings.is_empty());
    assert!(k.simulations.is_empty());
    assert!(k.distortions.is_empty());
}

#[test]
fn add_key_files_known_keys_and_ignores_others() {
    let mut k = FilterKeys::new();
    assert!(k.add_key("flip_y"));
    assert!(k.add_key("polar_coordinate"));
    assert!(k.add_key("monochrome"));
    assert!(k.add_key("threshold"));
    assert!(k.add_key("bg"));
    assert!(k.add_key("displacement_map"));
    assert!(k.add_key("peter_de_jong"));
    assert!(k.add_key("write_to_pre_compose_buffer"));
    assert!(!k.add_key("unknown_filter"));
    assert_eq!(k.transforms, vec!["flip_y".to_string(), "polar_coordinate".to_string()]);
    assert_eq!(k.color_adjustments, vec!["monochrome".to_string()]);
    assert_eq!(k.ditherings, vec!["threshold".to_string()]);
    assert_eq!(k.generatings, vec!["bg".to_string()]);
    assert_eq!(k.distortions, vec!["displacement_map".to_string()]);
    assert_eq!(k.simulations, vec!["peter_de_jong".to_string()]);
    assert_eq!(k.buffer_handlings, vec!["write_to_pre_compose_buffer".to_string()]);
}

#[test]
fn every_filed_key_creates_a_filter() {
    let all = [
        "flip_x", "flip_y", "polar_coordinate", "transform", "monochrome", "threshold", "bayer_16",
        "mosaïque", "bg", "seed", "noise_input", "displacement_map", "peter_de_jong",
        "clear_old_buffer", "write_to_pre_compose_buffer", "read_from_pre_compose_buffer",
        "clear_pre_compose_buffer",
    ];
    let mut k = FilterKeys::new();
    for key in all {
        assert!(k.add_key(key));
    }
    let lists = [
        &k.transforms,
        &k.color_adjustments,
        &k.ditherings,
        &k.generatings,
        &k.buffer_handlings,
        &k.simulations,
        &k.distortions,
    ];
    let mut total = 0;
    for list in lists {
        for key in list.iter() {
            let f = FilterInfo::new(key, LayerId::new(1));
            assert_eq!(&f.key, key);
            total += 1;
        }
    }
    assert_eq!(total, all.len());
}

#[test]
fn monochrome_defaults() {
    let f = FilterInfo::new("monochrome", LayerId::new(3));
    assert_eq!(f.key, "monochrome");
    assert_eq!(f.id.num, 3);
    assert!(f.active);
    let mut expected = [0u32; 20];
    expected[0] = bits(1.0);
    expected[1] = bits(0.5);
    expected[2] = bits(0.5);
    expected[3] = bits(0.5);
    assert_eq!(f.parameter, expected);
    assert_eq!(f.label.len(), 2);
    assert_eq!(f.label[0].plabel, "strongness");
    assert_eq!(f.label[0].ptype, Ptype::Float(Range::new(bits(0.0), bits(1.0))));
    assert_eq!(f.label[1].plabel, "input_rgb");
    assert_eq!(f.label[1].ptype, Ptype::Color3);
    assert_eq!(f.label[0].fluctus.figura, Figura::Constant);
}

#[test]
fn threshold_and_bayer_defaults() {
    let t = FilterInfo::new("threshold", LayerId::new(1));
    let mut expected = [0u32; 20];
    expected[0] = bits(0.5);
    expected[3] = bits(1.0);
    expected[4] = bits(1.0);
    expected[5] = bits(1.0);
    expected[6] = bits(1.0);
    assert_eq!(t.parameter, expected);
    let labels: Vec<&str> = t.label.iter().map(|p| p.plabel.as_str()).collect();
    assert_eq!(labels, vec!["threshold", "color1", "color2"]);

    let b = FilterInfo::new("bayer_16", LayerId::new(1));
    let mut expected = [0u32; 20];
    for i in 3..8 {
        expected[i] = bits(1.0);
    }
    assert_eq!(b.parameter, expected);
    assert_eq!(b.label[0].ptype, Ptype::Color4);
}

#[test]
fn peter_de_jong_defaults() {
    let f = FilterInfo::new("peter_de_jong", LayerId::new(1));
    let values = [1.641f32, 1.902, 0.316, 1.525, 1.0, 1.0, 0.4];
    for (i, v) in values.iter().enumerate() {
        assert_eq!(f.parameter[i], v.to_bits());
    }
    for i in 7..20 {
        assert_eq!(f.parameter[i], 0);
    }
    assert_eq!(f.label.len(), 7);
    assert_eq!(f.label[0].ptype, Ptype::Float(Range::new(bits(-10.0), bits(10.0))));
    assert_eq!(f.label[6].plabel, "clear strength");
}

#[test]
fn other_defaults() {
    let bg = FilterInfo::new("bg", LayerId::new(1));
    assert_eq!(bg.parameter[3], bits(0.3));
    let seed = FilterInfo::new("seed", LayerId::new(1));
    assert_eq!(seed.label[0].ptype, Ptype::Integer(Range::new(0, 1919)));
    assert_eq!(seed.label[1].ptype, Ptype::Integer(Range::new(0, 1079)));
    let d = FilterInfo::new("displacement_map", LayerId::new(1));
    assert_eq!(d.label[0].ptype, Ptype::Float(Range::new(bits(-5000.0), bits(5000.0))));
    assert_eq!(d.label[2].ptype, Ptype::Integer(Range::new(0, 10)));
    let m = FilterInfo::new("mosaïque", LayerId::new(1));
    assert_eq!(m.label[0].ptype, Ptype::Float(Range::new(bits(1.0), bits(1920.0))));
    assert_eq!(m.label[1].plabel, "cell heigght");
    let r = FilterInfo::new("read_from_pre_compose_buffer", LayerId::new(1));
    assert_eq!(r.parameter[1], bits(1.0));
    assert_eq!(r.label[1].plabel, "alpha");
    let c = FilterInfo::new("clear_pre_compose_buffer", LayerId::new(1));
    assert_eq!(c.parameter[1], bits(1.0));
    assert_eq!(c.label.len(), 1);
    let tr = FilterInfo::new("transform", LayerId::new(1));
    assert_eq!(tr.parameter[2], bits(1.0));
    assert_eq!(tr.parameter[3], bits(1.0));
    assert_eq!(tr.label[0].ptype, Ptype::Float(Range::new(bits(-1920.0), bits(1920.0))));
    assert_eq!(tr.label[1].ptype, Ptype::Float(Range::new(bits(-1080.0), bits(1080.0))));
    for key in ["flip_x", "flip_y", "clear_old_buffer"] {
        let f = FilterInfo::new(key, LayerId::new(1));
        assert!(f.label.is_empty());
        assert_eq!(f.parameter, [0u32; 20]);
    }
    let p = FilterInfo::new("polar_coordinate", LayerId::new(1));
    assert_eq!(p.label[1].plabel, "theta_offset");
    let n = FilterInfo::new("noise_input", LayerId::new(1));
    assert_eq!(n.label[0].plabel, "density");
    let w = FilterInfo::new("write_to_pre_compose_buffer", LayerId::new(1));
    assert_eq!(w.label[0].ptype, Ptype::Integer(Range::new(0, 9)));
}

#[test]
fn float_slots_follow_the_layout() {
    // threshold: float at 0, then two colors of 4 words each
    let t = FilterInfo::new("threshold", LayerId::new(1));
    let slots: Vec<usize> = t.float_slots().iter().map(|s| s.0).collect();
    assert_eq!(slots, vec![0]);
    // monochrome: float at 0, color3 after it
    let m = FilterInfo::new("monochrome", LayerId::new(1));
    assert_eq!(m.float_slots().len(), 1);
    // read_from_pre_compose_buffer: integer at 0, float at 1
    let r = FilterInfo::new("read_from_pre_compose_buffer", LayerId::new(1));
    let slots: Vec<usize> = r.float_slots().iter().map(|s| s.0).collect();
    assert_eq!(slots, vec![1]);
    // displacement_map: floats at 0 and 1, integer at 2
    let d = FilterInfo::new("displacement_map", LayerId::new(1));
    let slots: Vec<usize> = d.float_slots().iter().map(|s| s.0).collect();
    assert_eq!(slots, vec![0, 1]);
    // peter_de_jong: seven floats
    let p = FilterInfo::new("peter_de_jong", LayerId::new(1));
    let slots: Vec<usize> = p.float_slots().iter().map(|s| s.0).collect();
    assert_eq!(slots, vec![0, 1, 2, 3, 4, 5, 6]);
    // bayer_16: no floats
    let b = FilterInfo::new("bayer_16", LayerId::new(1));
    assert!(b.float_slots().is_empty());
}

#[test]
fn float_slots_after_colors() {
    let mut f = FilterInfo::new("threshold", LayerId::new(1));
    // move the float behind the two colors: it then starts at word 8
    let first = f.label.remove(0);
    f.label.push(first);
    let slots: Vec<usize> = f.float_slots().iter().map(|s| s.0).collect();
    assert_eq!(slots, vec![8]);
}

fn layers() -> LayerInfos {
    LayerInfos {
        types: vec![LayerType::Source(SourceInfo::new(LayerId::new(1), SourceId::new(1), 1))],
        id_last: LayerId::new(1),
    }
}

fn ids(l: &LayerInfos) -> Vec<usize> {
    l.types
        .iter()
        .map(|t| match t {
            LayerType::Source(s) => s.id.num,
            LayerType::Filter(f) => f.id.num,
        })
        .collect()
}

#[test]
fn add_filter_and_source_layers() {
    let mut l = layers();
    l.add_filter("bg");
    assert_eq!(l.id_last.num, 2);
    match &l.types[1] {
        LayerType::Filter(f) => {
            assert_eq!(f.key, "bg");
            assert_eq!(f.id.num, 2);
        }
        _ => panic!("expected a filter layer"),
    }
    let mut src = Source::new(SourceId::new(4));
    src.from = 3;
    src.to = 7;
    l.add_source(&src);
    assert_eq!(l.id_last.num, 3);
    match &l.types[2] {
        LayerType::Source(s) => {
            assert_eq!(s.id.num, 3);
            assert_eq!(s.source_id.num, 4);
            assert_eq!(s.len, 5);
        }
        _ => panic!("expected a source layer"),
    }
    assert_eq!(ids(&l), vec![1, 2, 3]);
}

#[test]
fn apply_edits_removes_then_swaps() {
    let mut l = layers();
    l.add_filter("bg");
    l.add_filter("flip_x");
    l.add_filter("flip_y");
    assert_eq!(ids(&l), vec![1, 2, 3, 4]);
    l.apply_edits(&vec![1], &vec![(0, 2)]);
    assert_eq!(ids(&l), vec![4, 3, 1]);
    l.apply_edits(&vec![], &vec![(1, 2)]);
    assert_eq!(ids(&l), vec![4, 1, 3]);
    // deletions are applied last-listed first
    l.apply_edits(&vec![0, 2], &vec![]);
    assert_eq!(ids(&l), vec![1]);
    assert_eq!(l.id_last.num, 4);
}
