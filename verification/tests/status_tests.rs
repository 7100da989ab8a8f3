use gyoretu::filters::LayerType;
use gyoretu::gui::WindowShowStatus;
use gyoretu::status::{
    sources_len, Mode, PinPongStatus, Source, SourceId, SourceIdentity, SourceInfos, Status,
    FIRST_SOURCE_ID, MAX_SAMPLED_TEXTURES_PER_SHADER_STAGE,
};

fn source(id: usize, from: u32, to: u32) -> Source {
    let mut s = Source::new(SourceId::new(id));
    s.from = from;
    s.to = to;
    s
}

#[test]
fn source_identity_and_id() {
    let i = SourceIdentity::new(12, 30);
    assert_eq!((i.offset_array_texture, i.len), (12, 30));
    assert_eq!(SourceId::new(9).num, 9);
}

#[test]
fn source_new_defaults() {
    let s = Source::new(SourceId::new(3));
    assert_eq!(s.dir, "./assets/");
    assert_eq!(s.filename, "");
    assert_eq!(s.digit, 5);
    assert_eq!(s.from, 0);
    assert_eq!(s.to, 10);
    assert_eq!(s.extension, "png");
    assert_eq!(s.id.num, 3);
    assert_eq!(s.frame_len(), 11);
}

#[test]
fn frame_len_counts_inclusive_range() {
    assert_eq!(source(1, 0, 0).frame_len(), 1);
    assert_eq!(source(1, 5, 9).frame_len(), 5);
    assert_eq!(source(1, 9, 5).frame_len(), 0);
    assert_eq!(source(1, 1, u32::MAX - 1).frame_len(), u32::MAX - 1);
}

#[test]
fn sources_len_sums_frame_counts() {
    assert_eq!(sources_len(&vec![]), 0);
    let v = vec![source(1, 0, 9), source(2, 3, 3), source(3, 7, 2), source(4, 100, 199)];
    assert_eq!(sources_len(&v), 10 + 1 + 0 + 100);
}

#[test]
fn add_source_uses_next_id() {
    let mut infos = SourceInfos { sources: vec![source(1, 0, 0)], id_last: SourceId::new(1) };
    infos.add_source();
    infos.add_source();
    assert_eq!(infos.id_last.num, 3);
    let ids: Vec<usize> = infos.sources.iter().map(|s| s.id.num).collect();
    assert_eq!(ids, vec![1, 2, 3]);
    assert_eq!(infos.sources[2].to, 10);
}

#[test]
fn status_new_initial_project() {
    let st = Status::new();
    assert_eq!(st.setting.frame_len, 1);
    assert_eq!(st.setting.frame_rate, 20);
    assert_eq!(st.setting.clear_intensity, 1.0f32.to_bits());
    assert_eq!(st.source_infos.sources.len(), 1);
    let s = &st.source_infos.sources[0];
    assert_eq!(s.dir, "./assets/");
    assert_eq!(s.filename, "seed");
    assert_eq!((s.from, s.to, s.digit), (0, 0, 5));
    assert_eq!(s.extension, "png");
    assert_eq!(s.id.num, FIRST_SOURCE_ID);
    assert_eq!(st.source_infos.id_last.num, FIRST_SOURCE_ID);
    assert_eq!(st.layer_infos.types.len(), 1);
    match &st.layer_infos.types[0] {
        LayerType::Source(l) => {
            assert_eq!(l.id.num, 1);
            assert_eq!(l.source_id.num, 1);
            assert_eq!(l.len, 1);
            assert!(l.active);
        }
        _ => panic!("expected a source layer"),
    }
    assert_eq!(st.layer_infos.id_last.num, 1);
    assert_eq!(st.win_show_status, WindowShowStatus::Source);
    assert_eq!(st.mode, Mode::Preview);
    assert_eq!(st.output_setting.filename, "image");
    assert_eq!((st.mov_width, st.mov_height), (1920, 1080));
    assert_eq!(st.actual_fps, Some(0.0f32.to_bits()));
    assert_eq!(st.ping_pong, PinPongStatus::F1T2);
    assert!(!st.update_input);
    assert!(st.offset_id_map.is_empty());
    assert_eq!((st.elapsed_frame, st.next_frame_index), (0, 0));
    assert_eq!(MAX_SAMPLED_TEXTURES_PER_SHADER_STAGE, 1024);
}
