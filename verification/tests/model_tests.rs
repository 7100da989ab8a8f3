use gyoretu::filters::{FilterInfo, LayerId, LayerType, SourceInfo};
use gyoretu::model::{
    advance_frame_index, finish_frame, frame_file_name, input_frame_paths, output_frame_path,
    plan_compute_passes, refresh_source_lengths, BindGroup, ComputePass,
};
use gyoretu::status::{Mode, PinPongStatus, Source, SourceId, SourceIdentity, Status};

#[test]
fn preview_follows_the_clock() {
    let mut st = Status::new();
    st.setting.frame_len = 10;
    st.next_frame_index = 4;
    advance_frame_index(&mut st, 27);
    assert_eq!(st.one_before_frame_index, 4);
    assert_eq!(st.next_frame_index, 7);
    assert_eq!(st.mode, Mode::Preview);
}

#[test]
fn rendering_shows_each_frame_once_then_previews() {
    let mut st = Status::new();
    st.setting.frame_len = 4;
    st.mode = Mode::Render(0);
    let mut shown = Vec::new();
    for _ in 0..4 {
        advance_frame_index(&mut st, 999);
        shown.push(st.next_frame_index);
    }
    assert_eq!(shown, vec![0, 1, 2, 3]);
    assert_eq!(st.mode, Mode::Preview);
}

#[test]
fn finish_frame_counts() {
    let mut st = Status::new();
    finish_frame(&mut st);
    finish_frame(&mut st);
    assert_eq!(st.elapsed_frame, 2);
}

#[test]
fn frame_file_names() {
    assert_eq!(frame_file_name("./assets/seed", 0, "png"), "./assets/seed_00000.png");
    assert_eq!(frame_file_name("a/b", 42, "jpg"), "a/b_00042.jpg");
    assert_eq!(frame_file_name("x", 123, "png"), "x_00123.png");
    assert_eq!(frame_file_name("x", 1234, "png"), "x_001234.png");
    assert_eq!(
        output_frame_path("202401011200_image", "image", 7),
        "./assets/outputs/202401011200_image/image_00007.png"
    );
}

fn source(id: usize, dir: &str, name: &str, from: u32, to: u32) -> Source {
    let mut s = Source::new(SourceId::new(id));
    s.dir = dir.to_string();
    s.filename = name.to_string();
    s.from = from;
    s.to = to;
    s
}

#[test]
fn input_paths_and_texture_slots() {
    let mut st = Status::new();
    st.source_infos.sources = vec![source(1, "d/", "a", 3, 5), source(2, "e/", "b", 9, 10)];
    let paths = input_frame_paths(&mut st);
    assert_eq!(
        paths,
        vec!["d/a_00003.png", "d/a_00004.png", "d/a_00005.png", "e/b_00009.png", "e/b_00010.png"]
    );
    assert_eq!(st.offset_id_map.get(&1), Some(&SourceIdentity::new(0, 3)));
    assert_eq!(st.offset_id_map.get(&2), Some(&SourceIdentity::new(3, 2)));
    assert_eq!(st.offset_id_map.len(), 2);
}

#[test]
fn refresh_updates_loaded_sources_and_layers() {
    let mut st = Status::new();
    st.source_infos.sources = vec![source(1, "d/", "a", 0, 9), source(2, "e/", "b", 0, 4)];
    st.offset_id_map.insert(1, SourceIdentity::new(5, 1));
    st.layer_infos.types.push(LayerType::Source(SourceInfo::new(LayerId::new(2), SourceId::new(2), 77)));
    refresh_source_lengths(&mut st);
    // source 1 is loaded: its slot start is kept, its length refreshed
    assert_eq!(st.offset_id_map.get(&1), Some(&SourceIdentity::new(5, 10)));
    // source 2 is not loaded: nothing recorded for it
    assert_eq!(st.offset_id_map.get(&2), None);
    match (&st.layer_infos.types[0], &st.layer_infos.types[1]) {
        (LayerType::Source(a), LayerType::Source(b)) => {
            assert_eq!(a.len, 10);
            assert_eq!(b.len, 77);
        }
        _ => panic!("expected source layers"),
    }
}

#[test]
fn compute_passes_alternate_bind_groups() {
    let mut st = Status::new();
    st.offset_id_map.insert(1, SourceIdentity::new(10, 5));
    st.next_frame_index = 2;
    st.layer_infos.types = vec![
        LayerType::Source(SourceInfo { len: 5, ..SourceInfo::new(LayerId::new(1), SourceId::new(1), 5) }),
        LayerType::Filter(FilterInfo::new("bg", LayerId::new(2))),
        LayerType::Source(SourceInfo::new(LayerId::new(3), SourceId::new(9), 5)),
        LayerType::Filter(FilterInfo { active: false, ..FilterInfo::new("flip_x", LayerId::new(4)) }),
        LayerType::Filter(FilterInfo::new("flip_y", LayerId::new(5))),
    ];
    let passes = plan_compute_passes(&mut st);
    assert_eq!(
        passes,
        vec![
            ComputePass::Background { bind: BindGroup::Odd },
            ComputePass::AddSource { read_here: 12, alpha: 1.0f32.to_bits(), bind: BindGroup::Even },
            ComputePass::Filter { layer: 1, bind: BindGroup::Odd },
            ComputePass::Filter { layer: 4, bind: BindGroup::Even },
        ]
    );
    assert_eq!(st.ping_pong, PinPongStatus::F1T2);
}

#[test]
fn source_layers_draw_only_inside_their_window() {
    let mut st = Status::new();
    st.offset_id_map.insert(1, SourceIdentity::new(0, 3));
    let mut layer = SourceInfo::new(LayerId::new(1), SourceId::new(1), 3);
    layer.offset = -2;
    st.layer_infos.types = vec![LayerType::Source(layer)];
    st.ping_pong = PinPongStatus::F2T1;
    st.next_frame_index = 0;
    let passes = plan_compute_passes(&mut st);
    assert_eq!(
        passes,
        vec![
            ComputePass::Background { bind: BindGroup::Even },
            ComputePass::AddSource { read_here: 2, alpha: 1.0f32.to_bits(), bind: BindGroup::Odd },
        ]
    );
    assert_eq!(st.ping_pong, PinPongStatus::F2T1);
    st.next_frame_index = 1;
    let passes = plan_compute_passes(&mut st);
    assert_eq!(passes.len(), 1);
    assert_eq!(st.ping_pong, PinPongStatus::F1T2);
}
