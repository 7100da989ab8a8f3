//! The project status: sources, layers, settings and the per-frame state.

use std::collections::HashMap;

use vstd::prelude::*;

use crate::filters::{LayerId, LayerInfos, LayerType, SourceInfo};
use crate::fluctus::F32_ONE;
use crate::gui::WindowShowStatus;

verus! {

/// Which intermediate buffer the next compute pass reads from: `F1T2` reads
/// buffer 1 and writes buffer 2, `F2T1` the other way round.
#[derive(Debug, Clone, Copy, PartialEq, Eq, Structural)]
pub enum PinPongStatus {
    F1T2,
    F2T1,
}

/// Most textures one shader stage may sample; bounds the frames imported.
pub const MAX_SAMPLED_TEXTURES_PER_SHADER_STAGE: u32 = 1024;

/// Size in bytes of the per-pass status block sent to the GPU.
pub const GEN_BUFFER_SIZE: u64 = 20;

/// Size in bytes of the filter parameter block sent to the GPU.
pub const FIL_BUFFER_SIZE: u64 = 80;

/// Id of the source that every new project starts with.
pub const FIRST_SOURCE_ID: usize = 1;

/// Where a source's frames sit in the texture array: first slot and count.
#[derive(Debug, Clone, Copy, PartialEq, Eq, Structural)]
pub struct SourceIdentity {
    pub offset_array_texture: u32,
    pub len: u32,
}

impl SourceIdentity {
    pub fn new(offset_array_texture: u32, len: u32) -> (s: SourceIdentity)
        ensures
            s.offset_array_texture == offset_array_texture,
            s.len == len,
    {
        SourceIdentity { offset_array_texture, len }
    }
}

/// Identifier of an image sequence source.
#[derive(Debug, Clone, Copy, PartialEq, Eq, Hash, Structural)]
pub struct SourceId {
    pub num: usize,
}

impl SourceId {
    pub fn new(num: usize) -> (s: SourceId)
        ensures
            s.num == num,
    {
        SourceId { num }
    }
}

/// An image sequence on disk: `dir`, file name stem, frame numbers
/// `from..=to`, extension.
#[derive(Debug, Clone)]
pub struct Source {
    pub dir: String,
    pub filename: String,
    pub digit: u32,
    pub from: u32,
    pub to: u32,
    pub extension: String,
    pub id: SourceId,
}

/// Number of frames of a sequence `from..=to` (none when `to < from`).
pub open spec fn frame_count(from: u32, to: u32) -> nat {
    if to < from {
        0
    } else {
        (to + 1 - from) as nat
    }
}

/// Whether the frame count of `from..=to` can be computed in `u32`
/// (`to + 1` is formed first, so `to` must stay below `u32::MAX`).
pub open spec fn frame_count_defined(from: u32, to: u32) -> bool {
    to < from || to < u32::MAX
}

impl Source {
    /// A fresh source: `./assets/`, no file name, 5 digits, frames 0 to 10, png.
    pub fn new(id: SourceId) -> (s: Source)
        ensures
            s.dir@ == "./assets/"@,
            s.filename@ == ""@,
            s.digit == 5,
            s.from == 0,
            s.to == 10,
            s.extension@ == "png"@,
            s.id == id,
    {
        Source {
            dir: "./assets/".to_owned(),
            filename: "".to_owned(),
            digit: 5,
            from: 0,
            to: 10,
            extension: "png".to_owned(),
            id,
        }
    }

    /// Number of frames of the sequence.
    pub fn frame_len(&self) -> (n: u32)
        requires
            frame_count_defined(self.from, self.to),
        ensures
            n == frame_count(self.from, self.to),
    {
        if self.to < self.from {
            0
        } else {
            self.to + 1 - self.from
        }
    }
}

/// Total number of frames of `sources`.
pub open spec fn total_frames(sources: Seq<Source>) -> nat
    decreases sources.len(),
{
    if sources.len() == 0 {
        0
    } else {
        total_frames(sources.drop_last()) + frame_count(sources.last().from, sources.last().to)
    }
}

/// Every source's frame count is computable and the total fits in `u32`.
pub open spec fn sources_countable(sources: Seq<Source>) -> bool {
    &&& forall|i: int| 0 <= i < sources.len() ==> frame_count_defined(#[trigger] sources[i].from, sources[i].to)
    &&& total_frames(sources) <= u32::MAX
}

/// The total of a prefix never exceeds the total of the whole sequence.
pub proof fn lemma_total_frames_prefix(sources: Seq<Source>, i: int)
    requires
        0 <= i <= sources.len(),
    ensures
        total_frames(sources.take(i)) <= total_frames(sources),
    decreases sources.len() - i,
{
    if i < sources.len() {
        lemma_total_frames_prefix(sources, i + 1);
        assert(sources.take(i + 1).drop_last() =~= sources.take(i));
    } else {
        assert(sources.take(i) =~= sources);
    }
}

/// Total number of frames of all `sources`.
pub fn sources_len(sources: &Vec<Source>) -> (sum: u32)
    requires
        sources_countable(sources@),
    ensures
        sum == total_frames(sources@),
{
    let mut sum: u32 = 0;
    let mut i: usize = 0;
    while i < sources.len()
        invariant
            i <= sources.len(),
            sources_countable(sources@),
            sum == total_frames(sources@.take(i as int)),
        decreases sources.len() - i,
    {
        proof {
            assert(sources@.take(i + 1).drop_last() =~= sources@.take(i as int));
            lemma_total_frames_prefix(sources@, i + 1);
        }
        let n = sources[i].frame_len();
        sum = sum + n;
        i = i + 1;
    }
    proof {
        assert(sources@.take(i as int) =~= sources@);
    }
    sum
}

/// Everything that describes a project and its playback state.
///
/// Float quantities (`actual_fps`, `previous_elapsed_time`) are held as
/// `f32` bit patterns; texture slots of the loaded sources are found in
/// `offset_id_map`, keyed by source id number.
#[derive(Debug, Clone)]
pub struct Status {
    pub setting: Setting,
    pub source_infos: SourceInfos,
    pub layer_infos: LayerInfos,
    pub win_show_status: WindowShowStatus,
    pub mode: Mode,
    pub output_setting: OutputSetting,
    pub elapsed_frame: u32,
    pub previous_elapsed_frame: u32,
    pub mov_width: u32,
    pub mov_height: u32,
    pub actual_fps: Option<u32>,
    pub next_frame_index: u32,
    pub one_before_frame_index: u32,
    pub previous_elapsed_time: u32,
    pub ping_pong: PinPongStatus,
    pub update_input: bool,
    pub offset_id_map: HashMap<usize, SourceIdentity>,
}

/// Name under which rendered frames are written.
#[derive(Debug, Clone)]
pub struct OutputSetting {
    pub filename: String,
}

/// Live preview, or rendering to files, holding the next frame to write.
#[derive(Debug, Clone, Copy, PartialEq, Eq, Structural)]
pub enum Mode {
    Preview,
    Render(u32),
}

/// User settings: loop length in frames, frame rate, and the intensity
/// (an `f32` bit pattern) with which the previous frame is cleared.
#[derive(Debug, Clone)]
pub struct Setting {
    pub frame_len: u32,
    pub frame_rate: u32,
    pub clear_intensity: u32,
}

/// The image sequences of a project and the last source id handed out.
#[derive(Debug, Clone)]
pub struct SourceInfos {
    pub sources: Vec<Source>,
    pub id_last: SourceId,
}

impl SourceInfos {
    /// Source ids are distinct and none is above `id_last`.
    pub open spec fn ids_wf(&self) -> bool {
        &&& forall|i: int|
            0 <= i < self.sources@.len() ==> (#[trigger] self.sources@[i]).id.num
                <= self.id_last.num
        &&& forall|i: int, j: int|
            0 <= i < self.sources@.len() && 0 <= j < self.sources@.len() && i != j
                ==> (#[trigger] self.sources@[i]).id != (#[trigger] self.sources@[j]).id
    }

    /// Appends a fresh source under the next source id.
    pub fn add_source(&mut self)
        requires
            old(self).id_last.num < usize::MAX,
        ensures
            final(self).id_last.num == old(self).id_last.num + 1,
            final(self).sources@.len() == old(self).sources@.len() + 1,
            final(self).sources@.drop_last() == old(self).sources@,
            final(self).sources@.last().id == final(self).id_last,
            final(self).sources@.last().dir@ == "./assets/"@,
            final(self).sources@.last().filename@ == ""@,
            final(self).sources@.last().digit == 5,
            final(self).sources@.last().from == 0,
            final(self).sources@.last().to == 10,
            final(self).sources@.last().extension@ == "png"@,
            old(self).ids_wf() ==> final(self).ids_wf(),
    {
        self.id_last.num = self.id_last.num + 1;
        let ghost before = self.sources@;
        self.sources.push(Source::new(self.id_last));
        assert(self.sources@.drop_last() =~= before);
    }
}

impl Status {
    /// A new project: one source `./assets/seed_00000.png` (frame 0 only),
    /// shown by one source layer; 20 frames per second, 1920x1080, preview
    /// mode, output name `image`.
    pub fn new() -> (st: Status)
        ensures
            st.setting.frame_len == 1,
            st.setting.frame_rate == 20,
            st.setting.clear_intensity == F32_ONE,
            st.source_infos.sources@.len() == 1,
            st.source_infos.sources@[0].dir@ == "./assets/"@,
            st.source_infos.sources@[0].filename@ == "seed"@,
            st.source_infos.sources@[0].digit == 5,
            st.source_infos.sources@[0].from == 0,
            st.source_infos.sources@[0].to == 0,
            st.source_infos.sources@[0].extension@ == "png"@,
            st.source_infos.sources@[0].id.num == FIRST_SOURCE_ID,
            st.source_infos.id_last.num == FIRST_SOURCE_ID,
            st.layer_infos.types@.len() == 1,
            st.layer_infos.types@[0] matches LayerType::Source(l) && l.id.num == FIRST_SOURCE_ID
                && l.active && l.source_id.num == FIRST_SOURCE_ID && l.offset == 0 && l.len == 1
                && l.alpha == F32_ONE && l.speed == F32_ONE,
            st.layer_infos.id_last.num == 1,
            st.win_show_status == WindowShowStatus::Source,
            st.mode == Mode::Preview,
            st.output_setting.filename@ == "image"@,
            st.elapsed_frame == 0,
            st.previous_elapsed_frame == 0,
            st.mov_width == 1920,
            st.mov_height == 1080,
            st.actual_fps == Some(0u32),
            st.next_frame_index == 0,
            st.one_before_frame_index == 0,
            st.previous_elapsed_time == 0,
            st.ping_pong == PinPongStatus::F1T2,
            !st.update_input,
            st.offset_id_map@ == Map::<usize, SourceIdentity>::empty(),
            st.source_infos.ids_wf(),
            st.layer_infos.ids_wf(),
    {
        let source = Source {
            dir: "./assets/".to_owned(),
            filename: "seed".to_owned(),
            digit: 5,
            from: 0,
            to: 0,
            extension: "png".to_owned(),
            id: SourceId::new(FIRST_SOURCE_ID),
        };
        let len = source.frame_len();
        let ini_source_layer = LayerType::Source(
            SourceInfo::new(LayerId::new(FIRST_SOURCE_ID), SourceId::new(FIRST_SOURCE_ID), len),
        );
        let mut types: Vec<LayerType> = Vec::new();
        types.push(ini_source_layer);
        let setting = Setting { frame_len: len, frame_rate: 20, clear_intensity: F32_ONE };
        let mut sources: Vec<Source> = Vec::new();
        sources.push(source);
        let source_infos = SourceInfos { sources, id_last: SourceId::new(FIRST_SOURCE_ID) };
        let layer_infos = LayerInfos { types, id_last: LayerId { num: 1 } };
        Status {
            setting,
            source_infos,
            layer_infos,
            win_show_status: WindowShowStatus::Source,
            mode: Mode::Preview,
            output_setting: OutputSetting { filename: "image".to_owned() },
            elapsed_frame: 0,
            previous_elapsed_frame: 0,
            mov_width: 1920,
            mov_height: 1080,
            actual_fps: Some(0u32),
            next_frame_index: 0,
            one_before_frame_index: 0,
            previous_elapsed_time: 0,
            ping_pong: PinPongStatus::F1T2,
            update_input: false,
            offset_id_map: HashMap::new(),
        }
    }
}

} // verus!
