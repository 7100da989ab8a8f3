//! Per-frame decisions: which frame to show next, where each source's frames
//! live in the texture array, which files to read and write, and the
//! sequence of compute passes that composes a frame.
//!
//! The application performs the GPU and file work these functions plan.

use std::collections::HashMap;

use vstd::prelude::*;

use crate::filters::{LayerType, SourceInfo};
use crate::status::{
    frame_count, frame_count_defined, sources_countable, total_frames, lemma_total_frames_prefix,
    Mode, PinPongStatus, Source, SourceIdentity, Status,
};
use crate::util::{decimal_chars, decimal_string};

verus! {

broadcast use vstd::std_specs::hash::group_hash_axioms;

/// The mode that follows `Render(index)`: the next frame, or back to
/// preview after the last frame of the loop.
pub open spec fn render_step(index: u32, frame_len: u32) -> Mode {
    if index > frame_len - 2 {
        Mode::Preview
    } else {
        Mode::Render((index + 1) as u32)
    }
}

/// Chooses the frame shown next. In preview the frame follows the clock
/// (`preview_frame` is the elapsed time multiplied by the frame rate); in
/// rendering every frame of the loop is shown once, in order.
pub fn advance_frame_index(status: &mut Status, preview_frame: u32)
    requires
        old(status).setting.frame_len > 0,
        old(status).mode is Render ==> old(status).setting.frame_len >= 2,
    ensures
        *final(status) == (Status {
            one_before_frame_index: old(status).next_frame_index,
            next_frame_index: match old(status).mode {
                Mode::Preview => (preview_frame % old(status).setting.frame_len) as u32,
                Mode::Render(index) => index,
            },
            mode: match old(status).mode {
                Mode::Preview => Mode::Preview,
                Mode::Render(index) => render_step(index, old(status).setting.frame_len),
            },
            ..*old(status)
        }),
{
    status.one_before_frame_index = status.next_frame_index;
    match status.mode {
        Mode::Preview => {
            status.next_frame_index = preview_frame % status.setting.frame_len;
        },
        Mode::Render(index) => {
            status.next_frame_index = index;
            if index > status.setting.frame_len - 2 {
                status.mode = Mode::Preview;
            } else {
                status.mode = Mode::Render(index + 1);
            }
        },
    }
}

/// Counts a drawn frame.
pub fn finish_frame(status: &mut Status)
    requires
        old(status).elapsed_frame < u32::MAX,
    ensures
        *final(status) == (Status { elapsed_frame: (old(status).elapsed_frame + 1) as u32, ..*old(status) }),
{
    status.elapsed_frame = status.elapsed_frame + 1;
}

/// The mode after `k` frames, starting from `mode`.
pub open spec fn render_run(mode: Mode, frame_len: u32, k: nat) -> Mode
    decreases k,
{
    if k == 0 {
        mode
    } else {
        match render_run(mode, frame_len, (k - 1) as nat) {
            Mode::Preview => Mode::Preview,
            Mode::Render(i) => render_step(i, frame_len),
        }
    }
}

/// Rendering a loop of `frame_len` frames starts at frame 0, shows frame `k`
/// at step `k`, and returns to preview after the last frame.
pub proof fn lemma_render_sweep(frame_len: u32, k: nat)
    requires
        frame_len >= 2,
        k <= frame_len,
    ensures
        k < frame_len ==> render_run(Mode::Render(0), frame_len, k) == Mode::Render(k as u32),
        k == frame_len ==> render_run(Mode::Render(0), frame_len, k) == Mode::Preview,
    decreases k,
{
    if k > 0 {
        lemma_render_sweep(frame_len, (k - 1) as nat);
    }
}

/// The texture slots of every source of `sources`, in order, laid over `m`:
/// each source gets the slots after those of the sources before it.
pub open spec fn registered_map(m: Map<usize, SourceIdentity>, sources: Seq<Source>) -> Map<
    usize,
    SourceIdentity,
>
    decreases sources.len(),
{
    if sources.len() == 0 {
        m
    } else {
        registered_map(m, sources.drop_last()).insert(
            sources.last().id.num,
            SourceIdentity {
                offset_array_texture: total_frames(sources.drop_last()) as u32,
                len: frame_count(sources.last().from, sources.last().to) as u32,
            },
        )
    }
}

/// `m` after refreshing the frame count of every listed source that already
/// has texture slots (its first slot is kept).
pub open spec fn refreshed_map(m: Map<usize, SourceIdentity>, sources: Seq<Source>) -> Map<
    usize,
    SourceIdentity,
>
    decreases sources.len(),
{
    if sources.len() == 0 {
        m
    } else {
        let prev = refreshed_map(m, sources.drop_last());
        let s = sources.last();
        if prev.contains_key(s.id.num) {
            prev.insert(
                s.id.num,
                SourceIdentity {
                    offset_array_texture: prev[s.id.num].offset_array_texture,
                    len: frame_count(s.from, s.to) as u32,
                },
            )
        } else {
            prev
        }
    }
}

/// A layer with its length taken from the texture slots of its source, when
/// that source has slots.
pub open spec fn refreshed_layer(l: LayerType, m: Map<usize, SourceIdentity>) -> LayerType {
    match l {
        LayerType::Source(info) => if m.contains_key(info.source_id.num) {
            LayerType::Source(SourceInfo { len: m[info.source_id.num].len, ..info })
        } else {
            l
        },
        LayerType::Filter(_) => l,
    }
}

/// Updates, after the sources were edited, the frame count recorded for each
/// loaded source, and the length of every layer that shows a loaded source.
pub fn refresh_source_lengths(status: &mut Status)
    requires
        forall|i: int|
            0 <= i < old(status).source_infos.sources@.len() ==> frame_count_defined(
                #[trigger] old(status).source_infos.sources@[i].from,
                old(status).source_infos.sources@[i].to,
            ),
    ensures
        final(status).offset_id_map@ == refreshed_map(
            old(status).offset_id_map@,
            old(status).source_infos.sources@,
        ),
        final(status).layer_infos.types@ == old(status).layer_infos.types@.map_values(
            |l: LayerType| refreshed_layer(l, final(status).offset_id_map@),
        ),
        forall|i: int|
            0 <= i < old(status).layer_infos.types@.len() ==> match #[trigger] old(
                status,
            ).layer_infos.types@[i] {
                LayerType::Source(info) => if final(status).offset_id_map@.contains_key(
                    info.source_id.num,
                ) {
                    final(status).layer_infos.types@[i] == LayerType::Source(
                        (SourceInfo { len: final(status).offset_id_map@[info.source_id.num].len, ..info }),
                    )
                } else {
                    final(status).layer_infos.types@[i] == old(status).layer_infos.types@[i]
                },
                LayerType::Filter(_) => final(status).layer_infos.types@[i] == old(
                    status,
                ).layer_infos.types@[i],
            },
        *final(status) == (Status {
            offset_id_map: final(status).offset_id_map,
            layer_infos: crate::filters::LayerInfos {
                types: final(status).layer_infos.types,
                ..old(status).layer_infos
            },
            ..*old(status)
        }),
{
    let n = status.source_infos.sources.len();
    let mut i: usize = 0;
    while i < n
        invariant
            i <= n,
            n == status.source_infos.sources@.len(),
            *status == (Status { offset_id_map: status.offset_id_map, ..*old(status) }),
            forall|q: int|
                0 <= q < n ==> frame_count_defined(
                    #[trigger] status.source_infos.sources@[q].from,
                    status.source_infos.sources@[q].to,
                ),
            status.offset_id_map@ == refreshed_map(
                old(status).offset_id_map@,
                status.source_infos.sources@.take(i as int),
            ),
        decreases n - i,
    {
        assert(status.source_infos.sources@.take(i + 1).drop_last()
            =~= status.source_infos.sources@.take(i as int));
        let key = status.source_infos.sources[i].id.num;
        let len = status.source_infos.sources[i].frame_len();
        let found = match status.offset_id_map.get(&key) {
            Some(identity) => Some(identity.offset_array_texture),
            None => None,
        };
        match found {
            Some(offset) => {
                status.offset_id_map.insert(key, SourceIdentity::new(offset, len));
            },
            None => {},
        }
        i = i + 1;
    }
    assert(status.source_infos.sources@.take(n as int) =~= status.source_infos.sources@);
    let ghost m = status.offset_id_map@;
    let ghost types0 = status.layer_infos.types@;
    let t = status.layer_infos.types.len();
    let mut j: usize = 0;
    while j < t
        invariant
            j <= t,
            t == status.layer_infos.types@.len(),
            types0 == old(status).layer_infos.types@,
            status.offset_id_map@ == m,
            *status == (Status {
                offset_id_map: status.offset_id_map,
                layer_infos: crate::filters::LayerInfos {
                    types: status.layer_infos.types,
                    ..old(status).layer_infos
                },
                ..*old(status)
            }),
            forall|q: int|
                0 <= q < j ==> status.layer_infos.types@[q] == refreshed_layer(types0[q], m),
            forall|q: int| j <= q < t ==> status.layer_infos.types@[q] == types0[q],
        decreases t - j,
    {
        let updated: Option<SourceInfo> = match &status.layer_infos.types[j] {
            LayerType::Source(info) => match status.offset_id_map.get(&info.source_id.num) {
                Some(identity) => Some(SourceInfo { len: identity.len, ..*info }),
                None => None,
            },
            LayerType::Filter(_) => None,
        };
        match updated {
            Some(info) => {
                status.layer_infos.types.set(j, LayerType::Source(info));
            },
            None => {},
        }
        j = j + 1;
    }
    assert(status.layer_infos.types@ =~= types0.map_values(
        |l: LayerType| refreshed_layer(l, m),
    ));
}

/// The padding put between `_00` and the frame number in a file name.
pub open spec fn frame_pad(index: u32) -> Seq<char> {
    if index < 10 {
        "00"@
    } else if index < 100 {
        "0"@
    } else {
        ""@
    }
}

/// The name of frame `index` of a sequence whose names start with `prefix`:
/// `{prefix}_00{pad}{index}.{extension}`.
pub open spec fn frame_name(prefix: Seq<char>, index: u32, extension: Seq<char>) -> Seq<char> {
    prefix + "_00"@ + frame_pad(index) + decimal_chars(index as nat) + "."@ + extension
}

/// The file name of frame `index` of a sequence whose names start with `prefix`.
pub fn frame_file_name(prefix: &str, index: u32, extension: &str) -> (name: String)
    ensures
        name@ == frame_name(prefix@, index, extension@),
{
    let mut name = prefix.to_owned();
    name.append("_00");
    if index < 10 {
        name.append("00");
    } else if index < 100 {
        name.append("0");
    }
    let digits = decimal_string(index);
    name.append(digits.as_str());
    name.append(".");
    name.append(extension);
    proof {
        reveal_strlit("");
    }
    assert(name@ =~= frame_name(prefix@, index, extension@));
    name
}

/// The path under which rendered frame `index` is written:
/// `./assets/outputs/{save_dir}/{filename}_00{pad}{index}.png`.
pub fn output_frame_path(save_dir: &str, filename: &str, index: u32) -> (path: String)
    ensures
        path@ == frame_name("./assets/outputs/"@ + save_dir@ + "/"@ + filename@, index, "png"@),
{
    let mut prefix = "./assets/outputs/".to_owned();
    prefix.append(save_dir);
    prefix.append("/");
    prefix.append(filename);
    frame_file_name(prefix.as_str(), index, "png")
}

/// The files of the frames of one source, in frame order.
pub open spec fn source_frame_names(s: Source) -> Seq<Seq<char>> {
    Seq::new(
        frame_count(s.from, s.to),
        |k: int| frame_name(s.dir@ + s.filename@, (s.from + k) as u32, s.extension@),
    )
}

/// The files of the frames of all `sources`, source after source.
pub open spec fn all_frame_names(sources: Seq<Source>) -> Seq<Seq<char>>
    decreases sources.len(),
{
    if sources.len() == 0 {
        Seq::empty()
    } else {
        all_frame_names(sources.drop_last()) + source_frame_names(sources.last())
    }
}

/// Gives every source the texture slots that follow those of the sources
/// before it, and lists the files to load into those slots, in slot order.
pub fn input_frame_paths(status: &mut Status) -> (paths: Vec<String>)
    requires
        sources_countable(old(status).source_infos.sources@),
    ensures
        paths@.map_values(|p: String| p@) == all_frame_names(old(status).source_infos.sources@),
        final(status).offset_id_map@ == registered_map(
            old(status).offset_id_map@,
            old(status).source_infos.sources@,
        ),
        *final(status) == (Status { offset_id_map: final(status).offset_id_map, ..*old(status) }),
{
    let ghost m0 = status.offset_id_map@;
    let mut paths: Vec<String> = Vec::new();
    let n = status.source_infos.sources.len();
    let mut count: u32 = 0;
    let mut i: usize = 0;
    while i < n
        invariant
            i <= n,
            n == status.source_infos.sources@.len(),
            *status == (Status { offset_id_map: status.offset_id_map, ..*old(status) }),
            m0 == old(status).offset_id_map@,
            sources_countable(status.source_infos.sources@),
            count == total_frames(status.source_infos.sources@.take(i as int)),
            status.offset_id_map@ == registered_map(m0, status.source_infos.sources@.take(i as int)),
            paths@.map_values(|p: String| p@) == all_frame_names(
                status.source_infos.sources@.take(i as int),
            ),
        decreases n - i,
    {
        let ghost sources = status.source_infos.sources@;
        proof {
            assert(sources.take(i + 1).drop_last() =~= sources.take(i as int));
            lemma_total_frames_prefix(sources, i + 1);
        }
        let source = &status.source_infos.sources[i];
        let len = source.frame_len();
        let mut prefix = source.dir.clone();
        prefix.append(source.filename.as_str());
        let from = source.from;
        let key = source.id.num;
        let ghost before = paths@.map_values(|p: String| p@);
        let mut k: u32 = 0;
        while k < len
            invariant
                i < sources.len(),
                *source == sources[i as int],
                k <= len,
                len == frame_count(sources[i as int].from, sources[i as int].to),
                from == sources[i as int].from,
                frame_count_defined(sources[i as int].from, sources[i as int].to),
                prefix@ == sources[i as int].dir@ + sources[i as int].filename@,
                paths@.map_values(|p: String| p@) == before + source_frame_names(
                    sources[i as int],
                ).take(k as int),
            decreases len - k,
        {
            let name = frame_file_name(prefix.as_str(), from + k, source.extension.as_str());
            let ghost names = source_frame_names(sources[i as int]);
            let ghost old_view = paths@.map_values(|p: String| p@);
            assert(name@ == names[k as int]);
            paths.push(name);
            proof {
                assert(paths@.map_values(|p: String| p@) =~= old_view.push(name@));
                assert(old_view.push(name@) =~= before + names.take(k + 1));
            }
            k = k + 1;
        }
        assert(source_frame_names(sources[i as int]).take(len as int) =~= source_frame_names(
            sources[i as int],
        ));
        status.offset_id_map.insert(key, SourceIdentity::new(count, len));
        count = count + len;
        i = i + 1;
    }
    assert(status.source_infos.sources@.take(n as int) =~= status.source_infos.sources@);
    paths
}

/// Which of the two bind groups a compute pass uses: `Odd` reads buffer 1
/// and writes buffer 2, `Even` the other way round.
#[derive(Debug, Clone, Copy, PartialEq, Eq, Structural)]
pub enum BindGroup {
    Odd,
    Even,
}

/// One compute pass of a frame.
#[derive(Debug, Clone, Copy, PartialEq, Eq, Structural)]
pub enum ComputePass {
    /// Clear the image to the background, with the clear intensity.
    Background { bind: BindGroup },
    /// Blend texture slot `read_here` with opacity `alpha` (an `f32` bit pattern).
    AddSource { read_here: u32, alpha: u32, bind: BindGroup },
    /// Run the filter of layer `layer` (a clear-buffer pass then the filter).
    Filter { layer: usize, bind: BindGroup },
}

/// The bind group used while the ping-pong state is `pp`.
pub open spec fn bind_for(pp: PinPongStatus) -> BindGroup {
    match pp {
        PinPongStatus::F1T2 => BindGroup::Odd,
        PinPongStatus::F2T1 => BindGroup::Even,
    }
}

/// The ping-pong state after one pass.
pub open spec fn flip(pp: PinPongStatus) -> PinPongStatus {
    match pp {
        PinPongStatus::F1T2 => PinPongStatus::F2T1,
        PinPongStatus::F2T1 => PinPongStatus::F1T2,
    }
}

/// The ping-pong state after `n` passes.
pub open spec fn flip_n(pp: PinPongStatus, n: nat) -> PinPongStatus {
    if n % 2 == 0 {
        pp
    } else {
        flip(pp)
    }
}

/// The bind group of a pass.
pub open spec fn pass_bind(p: ComputePass) -> BindGroup {
    match p {
        ComputePass::Background { bind } => bind,
        ComputePass::AddSource { bind, .. } => bind,
        ComputePass::Filter { bind, .. } => bind,
    }
}

/// The texture slot a source layer draws at frame `next`, when it draws:
/// the layer is active, its source is loaded, and `next` falls within the
/// layer's `len` frames starting at its `offset`.
pub open spec fn source_read_index(info: SourceInfo, m: Map<usize, SourceIdentity>, next: u32) -> Option<
    int,
> {
    if info.active && m.contains_key(info.source_id.num) && info.offset <= next && next
        < info.offset + info.len {
        Some(next + m[info.source_id.num].offset_array_texture - info.offset)
    } else {
        None
    }
}

/// The passes drawn for the layers `types`, in order, starting from
/// ping-pong state `pp`, and the state after them.
pub open spec fn layer_passes(
    types: Seq<LayerType>,
    m: Map<usize, SourceIdentity>,
    next: u32,
    pp: PinPongStatus,
) -> (Seq<ComputePass>, PinPongStatus)
    decreases types.len(),
{
    if types.len() == 0 {
        (Seq::empty(), pp)
    } else {
        let (prev, p) = layer_passes(types.drop_last(), m, next, pp);
        match types.last() {
            LayerType::Source(info) => match source_read_index(info, m, next) {
                Some(r) => (
                    prev.push(ComputePass::AddSource { read_here: r as u32, alpha: info.alpha, bind: bind_for(p) }),
                    flip(p),
                ),
                None => (prev, p),
            },
            LayerType::Filter(f) => if f.active {
                (
                    prev.push(ComputePass::Filter { layer: (types.len() - 1) as usize, bind: bind_for(p) }),
                    flip(p),
                )
            } else {
                (prev, p)
            },
        }
    }
}

/// Every texture slot a source layer draws from fits in `u32`.
pub open spec fn reads_fit(types: Seq<LayerType>, m: Map<usize, SourceIdentity>, next: u32) -> bool {
    forall|i: int|
        #![trigger types[i]]
        0 <= i < types.len() ==> match types[i] {
            LayerType::Source(info) => match source_read_index(info, m, next) {
                Some(r) => r <= u32::MAX,
                None => true,
            },
            LayerType::Filter(_) => true,
        }
}

/// Plans the compute passes of the current frame: the background pass, then
/// one pass per drawing source layer and per active filter layer, in layer
/// order. Each pass uses the bind group of the current ping-pong state and
/// flips it.
pub fn plan_compute_passes(status: &mut Status) -> (passes: Vec<ComputePass>)
    requires
        reads_fit(
            old(status).layer_infos.types@,
            old(status).offset_id_map@,
            old(status).next_frame_index,
        ),
    ensures
        passes@ == seq![ComputePass::Background { bind: bind_for(old(status).ping_pong) }] + layer_passes(
            old(status).layer_infos.types@,
            old(status).offset_id_map@,
            old(status).next_frame_index,
            flip(old(status).ping_pong),
        ).0,
        forall|i: int|
            0 <= i < old(status).layer_infos.types@.len() && (#[trigger] old(
                status,
            ).layer_infos.types@[i]) is Source && {
                let info = old(status).layer_infos.types@[i]->Source_0;
                &&& info.active
                &&& old(status).offset_id_map@.contains_key(info.source_id.num)
                &&& info.offset <= old(status).next_frame_index < info.offset + info.len
            } ==> exists|k: int|
                1 <= k < passes@.len() && #[trigger] passes@[k] == (ComputePass::AddSource {
                    read_here: (old(status).next_frame_index + old(
                        status,
                    ).offset_id_map@[old(status).layer_infos.types@[i]->Source_0.source_id.num].offset_array_texture
                        - old(status).layer_infos.types@[i]->Source_0.offset) as u32,
                    alpha: old(status).layer_infos.types@[i]->Source_0.alpha,
                    bind: pass_bind(passes@[k]),
                }),
        *final(status) == (Status {
            ping_pong: layer_passes(
                old(status).layer_infos.types@,
                old(status).offset_id_map@,
                old(status).next_frame_index,
                flip(old(status).ping_pong),
            ).1,
            ..*old(status)
        }),
{
    let ghost types = status.layer_infos.types@;
    let ghost m = status.offset_id_map@;
    let next = status.next_frame_index;
    let ghost pp1 = flip(status.ping_pong);
    let mut passes: Vec<ComputePass> = Vec::new();
    let first = match status.ping_pong {
        PinPongStatus::F2T1 => {
            status.ping_pong = PinPongStatus::F1T2;
            BindGroup::Even
        },
        PinPongStatus::F1T2 => {
            status.ping_pong = PinPongStatus::F2T1;
            BindGroup::Odd
        },
    };
    passes.push(ComputePass::Background { bind: first });
    let n = status.layer_infos.types.len();
    let mut i: usize = 0;
    while i < n
        invariant
            i <= n,
            n == types.len(),
            types == status.layer_infos.types@,
            m == status.offset_id_map@,
            next == status.next_frame_index,
            types == old(status).layer_infos.types@,
            m == old(status).offset_id_map@,
            next == old(status).next_frame_index,
            pp1 == flip(old(status).ping_pong),
            reads_fit(types, m, next),
            *status == (Status { ping_pong: status.ping_pong, ..*old(status) }),
            passes@ == seq![ComputePass::Background { bind: bind_for(old(status).ping_pong) }]
                + layer_passes(types.take(i as int), m, next, pp1).0,
            status.ping_pong == layer_passes(types.take(i as int), m, next, pp1).1,
        decreases n - i,
    {
        assert(types.take(i + 1).drop_last() =~= types.take(i as int));
        assert(types.take(i + 1).last() == types[i as int]);
        let ghost before = passes@;
        let bind = match status.ping_pong {
            PinPongStatus::F2T1 => BindGroup::Even,
            PinPongStatus::F1T2 => BindGroup::Odd,
        };
        let pass: Option<ComputePass> = match &status.layer_infos.types[i] {
            LayerType::Source(infos) => {
                if infos.active {
                    match status.offset_id_map.get(&infos.source_id.num) {
                        Some(identity) => {
                            let off = infos.offset as i64;
                            let nx = next as i64;
                            if off <= nx && nx < off + infos.len as i64 {
                                let read = nx + identity.offset_array_texture as i64 - off;
                                Some(
                                    ComputePass::AddSource {
                                        read_here: read as u32,
                                        alpha: infos.alpha,
                                        bind,
                                    },
                                )
                            } else {
                                None
                            }
                        },
                        None => None,
                    }
                } else {
                    None
                }
            },
            LayerType::Filter(infos) => {
                if infos.active {
                    Some(ComputePass::Filter { layer: i, bind })
                } else {
                    None
                }
            },
        };
        match pass {
            Some(p) => {
                passes.push(p);
                status.ping_pong = match status.ping_pong {
                    PinPongStatus::F2T1 => PinPongStatus::F1T2,
                    PinPongStatus::F1T2 => PinPongStatus::F2T1,
                };
                assert(passes@ =~= seq![ComputePass::Background { bind: bind_for(old(status).ping_pong) }]
                    + layer_passes(types.take(i + 1), m, next, pp1).0);
            },
            None => {
                assert(passes@ =~= seq![ComputePass::Background { bind: bind_for(old(status).ping_pong) }]
                    + layer_passes(types.take(i + 1), m, next, pp1).0);
            },
        }
        i = i + 1;
    }
    assert(types.take(n as int) =~= types);
    proof {
        let lp = layer_passes(types, m, next, pp1).0;
        assert forall|j: int|
            0 <= j < types.len() && (#[trigger] types[j]) is Source && {
                let info = types[j]->Source_0;
                &&& info.active
                &&& m.contains_key(info.source_id.num)
                &&& info.offset <= next < info.offset + info.len
            } implies exists|k: int|
            1 <= k < passes@.len() && #[trigger] passes@[k] == (ComputePass::AddSource {
                read_here: (next + m[types[j]->Source_0.source_id.num].offset_array_texture
                    - types[j]->Source_0.offset) as u32,
                alpha: types[j]->Source_0.alpha,
                bind: pass_bind(passes@[k]),
            }) by {
            let info = types[j]->Source_0;
            lemma_drawing_source_layer_has_pass(types, m, next, pp1, j, info);
            let k = choose|k: int|
                0 <= k < lp.len() && #[trigger] lp[k] == (ComputePass::AddSource {
                    read_here: (next + m[info.source_id.num].offset_array_texture - info.offset) as u32,
                    alpha: info.alpha,
                    bind: pass_bind(lp[k]),
                });
            assert(passes@[k + 1] == lp[k]);
        }
    }
    passes
}

/// Passes alternate between the two bind groups: the `k`-th layer pass uses
/// the bind group of the state flipped `k` times, and the final state is the
/// start state flipped once per pass.
pub proof fn lemma_layer_passes_alternate(
    types: Seq<LayerType>,
    m: Map<usize, SourceIdentity>,
    next: u32,
    pp: PinPongStatus,
)
    ensures
        layer_passes(types, m, next, pp).1 == flip_n(pp, layer_passes(types, m, next, pp).0.len()),
        forall|k: int|
            0 <= k < layer_passes(types, m, next, pp).0.len() ==> pass_bind(
                #[trigger] layer_passes(types, m, next, pp).0[k],
            ) == bind_for(flip_n(pp, k as nat)),
    decreases types.len(),
{
    if types.len() > 0 {
        lemma_layer_passes_alternate(types.drop_last(), m, next, pp);
    }
}

/// Over a whole frame plan (background pass first), pass `k` uses the bind
/// group of the start state flipped `k` times, and the state left behind is
/// the start state flipped once per pass.
pub proof fn lemma_frame_passes_alternate(
    types: Seq<LayerType>,
    m: Map<usize, SourceIdentity>,
    next: u32,
    pp: PinPongStatus,
)
    ensures
        ({
            let plan = seq![ComputePass::Background { bind: bind_for(pp) }] + layer_passes(
                types,
                m,
                next,
                flip(pp),
            ).0;
            &&& layer_passes(types, m, next, flip(pp)).1 == flip_n(pp, plan.len())
            &&& forall|k: int|
                0 <= k < plan.len() ==> pass_bind(#[trigger] plan[k]) == bind_for(
                    flip_n(pp, k as nat),
                )
        }),
{
    lemma_layer_passes_alternate(types, m, next, flip(pp));
    let lp = layer_passes(types, m, next, flip(pp)).0;
    let plan = seq![ComputePass::Background { bind: bind_for(pp) }] + lp;
    assert forall|k: int| 0 <= k < plan.len() implies pass_bind(#[trigger] plan[k]) == bind_for(
        flip_n(pp, k as nat),
    ) by {
        if k > 0 {
            assert(plan[k] == lp[k - 1]);
            assert(pass_bind(lp[k - 1]) == bind_for(flip_n(flip(pp), (k - 1) as nat)));
        }
    }
}

/// Appending a source layer to the stack: when the layer is active, its
/// source is loaded, and frame `next` falls within its frames
/// `offset <= next < offset + len`, one pass is added that blends texture
/// slot `next - offset` past the first slot of its source, with the layer's
/// opacity, in the current bind group, and the ping-pong state flips.
/// Otherwise the passes and the state stay as they were.
pub proof fn lemma_layer_passes_push_source(
    types: Seq<LayerType>,
    m: Map<usize, SourceIdentity>,
    next: u32,
    pp: PinPongStatus,
    info: SourceInfo,
)
    ensures
        ({
            let before = layer_passes(types, m, next, pp);
            let after = layer_passes(types.push(LayerType::Source(info)), m, next, pp);
            if info.active && m.contains_key(info.source_id.num) && info.offset <= next && next
                < info.offset + info.len {
                &&& after.0 == before.0.push(
                    ComputePass::AddSource {
                        read_here: (next + m[info.source_id.num].offset_array_texture
                            - info.offset) as u32,
                        alpha: info.alpha,
                        bind: bind_for(before.1),
                    },
                )
                &&& after.1 == flip(before.1)
            } else {
                after == before
            }
        }),
{
    assert(types.push(LayerType::Source(info)).drop_last() =~= types);
}

/// Appending a filter layer to the stack: an active filter adds one pass
/// for its layer index in the current bind group and flips the ping-pong
/// state; an inactive one changes nothing.
pub proof fn lemma_layer_passes_push_filter(
    types: Seq<LayerType>,
    m: Map<usize, SourceIdentity>,
    next: u32,
    pp: PinPongStatus,
    f: crate::filters::FilterInfo,
)
    ensures
        ({
            let before = layer_passes(types, m, next, pp);
            let after = layer_passes(types.push(LayerType::Filter(f)), m, next, pp);
            if f.active {
                &&& after.0 == before.0.push(
                    ComputePass::Filter { layer: types.len() as usize, bind: bind_for(before.1) },
                )
                &&& after.1 == flip(before.1)
            } else {
                after == before
            }
        }),
{
    assert(types.push(LayerType::Filter(f)).drop_last() =~= types);
}

/// The passes of a layer stack with no layers are none, and the state is
/// left as it was.
pub proof fn lemma_layer_passes_empty(m: Map<usize, SourceIdentity>, next: u32, pp: PinPongStatus)
    ensures
        layer_passes(Seq::empty(), m, next, pp) == (Seq::<ComputePass>::empty(), pp),
{
}

/// Every source layer that is active, whose source is loaded and whose
/// frames `offset <= next < offset + len` include frame `next` is drawn: a
/// planned pass blends texture slot `next - offset` past the first slot of
/// its source (at `next == offset`, that first slot) with the layer's
/// opacity.
pub proof fn lemma_drawing_source_layer_has_pass(
    types: Seq<LayerType>,
    m: Map<usize, SourceIdentity>,
    next: u32,
    pp: PinPongStatus,
    i: int,
    info: SourceInfo,
)
    requires
        0 <= i < types.len(),
        types[i] == LayerType::Source(info),
        info.active,
        m.contains_key(info.source_id.num),
        info.offset <= next,
        next < info.offset + info.len,
    ensures
        exists|k: int|
            0 <= k < layer_passes(types, m, next, pp).0.len() && #[trigger] layer_passes(
                types,
                m,
                next,
                pp,
            ).0[k] == (ComputePass::AddSource {
                read_here: (next + m[info.source_id.num].offset_array_texture - info.offset) as u32,
                alpha: info.alpha,
                bind: pass_bind(layer_passes(types, m, next, pp).0[k]),
            }),
    decreases types.len(),
{
    let d = types.drop_last();
    assert(d.push(types.last()) =~= types);
    let before = layer_passes(d, m, next, pp);
    let after = layer_passes(types, m, next, pp);
    if i == types.len() - 1 {
        lemma_layer_passes_push_source(d, m, next, pp, info);
        let k = before.0.len() as int;
        assert(after.0[k] == ComputePass::AddSource {
            read_here: (next + m[info.source_id.num].offset_array_texture - info.offset) as u32,
            alpha: info.alpha,
            bind: pass_bind(after.0[k]),
        });
    } else {
        assert(d[i] == types[i]);
        lemma_drawing_source_layer_has_pass(d, m, next, pp, i, info);
        let k = choose|k: int|
            0 <= k < before.0.len() && #[trigger] before.0[k] == ComputePass::AddSource {
                read_here: (next + m[info.source_id.num].offset_array_texture - info.offset) as u32,
                alpha: info.alpha,
                bind: pass_bind(before.0[k]),
            };
        match types.last() {
            LayerType::Source(s) => lemma_layer_passes_push_source(d, m, next, pp, s),
            LayerType::Filter(f) => lemma_layer_passes_push_filter(d, m, next, pp, f),
        }
        assert(after.0[k] == before.0[k]);
    }
}

/// Every pass that blends a source was planned for a source layer that is
/// active, whose source is loaded and whose frames include frame `next`,
/// and it reads that layer's slot `next - offset` past its source's first
/// slot with that layer's opacity. Every filter pass names an active filter
/// layer of the stack (a stack whose indices fit in `usize`, as any stack
/// held in memory).
pub proof fn lemma_layer_pass_has_layer(
    types: Seq<LayerType>,
    m: Map<usize, SourceIdentity>,
    next: u32,
    pp: PinPongStatus,
    k: int,
)
    requires
        types.len() <= usize::MAX,
        0 <= k < layer_passes(types, m, next, pp).0.len(),
    ensures
        layer_passes(types, m, next, pp).0[k] is AddSource ==> exists|i: int|
            0 <= i < types.len() && (#[trigger] types[i]) is Source && {
                let info = types[i]->Source_0;
                &&& info.active
                &&& m.contains_key(info.source_id.num)
                &&& info.offset <= next < info.offset + info.len
                &&& layer_passes(types, m, next, pp).0[k]->read_here == (next
                    + m[info.source_id.num].offset_array_texture - info.offset) as u32
                &&& layer_passes(types, m, next, pp).0[k]->alpha == info.alpha
            },
        layer_passes(types, m, next, pp).0[k] is Filter ==> {
            let layer = layer_passes(types, m, next, pp).0[k]->layer;
            &&& layer < types.len()
            &&& (types[layer as int] matches LayerType::Filter(f) && f.active)
        },
    decreases types.len(),
{
    let d = types.drop_last();
    assert(d.push(types.last()) =~= types);
    let before = layer_passes(d, m, next, pp);
    let after = layer_passes(types, m, next, pp);
    match types.last() {
        LayerType::Source(s) => lemma_layer_passes_push_source(d, m, next, pp, s),
        LayerType::Filter(f) => lemma_layer_passes_push_filter(d, m, next, pp, f),
    }
    if k < before.0.len() {
        assert(after.0[k] == before.0[k]);
        lemma_layer_pass_has_layer(d, m, next, pp, k);
        if after.0[k] is AddSource {
            let i = choose|i: int|
                0 <= i < d.len() && (#[trigger] d[i]) is Source && {
                    let info = d[i]->Source_0;
                    &&& info.active
                    &&& m.contains_key(info.source_id.num)
                    &&& info.offset <= next < info.offset + info.len
                    &&& before.0[k]->read_here == (next
                        + m[info.source_id.num].offset_array_texture - info.offset) as u32
                    &&& before.0[k]->alpha == info.alpha
                };
            assert(types[i] == d[i]);
        }
        if after.0[k] is Filter {
            assert(types[after.0[k]->layer as int] == d[after.0[k]->layer as int]);
        }
    } else {
        let i = types.len() - 1;
        assert(types[i] == types.last());
    }
}

/// A source layer whose source has texture slots takes the frame count
/// recorded for that source as its length, whether it is shown or hidden;
/// its other fields are kept. A layer of a source without slots, and a
/// filter layer, are kept as they are.
pub proof fn lemma_refreshed_layer_len(info: SourceInfo, f: crate::filters::FilterInfo, m: Map<
    usize,
    SourceIdentity,
>)
    ensures
        m.contains_key(info.source_id.num) ==> refreshed_layer(LayerType::Source(info), m)
            == LayerType::Source(
            (SourceInfo {
                id: info.id,
                active: info.active,
                source_id: info.source_id,
                offset: info.offset,
                len: m[info.source_id.num].len,
                alpha: info.alpha,
                speed: info.speed,
            }),
        ),
        !m.contains_key(info.source_id.num) ==> refreshed_layer(LayerType::Source(info), m)
            == LayerType::Source(info),
        refreshed_layer(LayerType::Filter(f), m) == LayerType::Filter(f),
{
}

/// After the sources are edited and the lengths refreshed, every layer of a
/// loaded source (ids distinct) is as long as that source now is,
/// `frame_count(from, to)`, whether the layer is shown or hidden.
pub proof fn lemma_refreshed_layer_matches_source(
    info: SourceInfo,
    m: Map<usize, SourceIdentity>,
    sources: Seq<Source>,
    j: int,
)
    requires
        0 <= j < sources.len(),
        distinct_ids(sources),
        sources[j].id.num == info.source_id.num,
        m.contains_key(info.source_id.num),
    ensures
        refreshed_layer(LayerType::Source(info), refreshed_map(m, sources)) == LayerType::Source(
            (SourceInfo {
                id: info.id,
                active: info.active,
                source_id: info.source_id,
                offset: info.offset,
                len: frame_count(sources[j].from, sources[j].to) as u32,
                alpha: info.alpha,
                speed: info.speed,
            }),
        ),
{
    lemma_refreshed_slot(m, sources, j);
}

/// The file list holds one file per frame of all sources.
pub proof fn lemma_all_frame_names_len(sources: Seq<Source>)
    ensures
        all_frame_names(sources).len() == total_frames(sources),
    decreases sources.len(),
{
    if sources.len() > 0 {
        lemma_all_frame_names_len(sources.drop_last());
    }
}

/// In the file list, frame `k` of source `i` follows the frames of all the
/// sources before it.
pub proof fn lemma_frame_slot(sources: Seq<Source>, i: int, k: int)
    requires
        0 <= i < sources.len(),
        0 <= k < frame_count(sources[i].from, sources[i].to),
    ensures
        total_frames(sources.take(i)) + k < all_frame_names(sources).len(),
        all_frame_names(sources)[total_frames(sources.take(i)) + k] == source_frame_names(
            sources[i],
        )[k],
    decreases sources.len(),
{
    let d = sources.drop_last();
    lemma_all_frame_names_len(sources);
    lemma_all_frame_names_len(d);
    if i == sources.len() - 1 {
        assert(sources.take(i) =~= d);
    } else {
        assert(d.take(i) =~= sources.take(i));
        assert(d[i] == sources[i]);
        lemma_frame_slot(d, i, k);
    }
}

/// Source ids of `sources` are pairwise distinct.
pub open spec fn distinct_ids(sources: Seq<Source>) -> bool {
    forall|a: int, b: int|
        0 <= a < sources.len() && 0 <= b < sources.len() && a != b ==> (#[trigger] sources[a]).id.num
            != (#[trigger] sources[b]).id.num
}

/// With distinct source ids, every source's texture slots start after the
/// frames of the sources before it and span its frame count.
pub proof fn lemma_registered_slot(m: Map<usize, SourceIdentity>, sources: Seq<Source>, i: int)
    requires
        0 <= i < sources.len(),
        distinct_ids(sources),
    ensures
        registered_map(m, sources).contains_key(sources[i].id.num),
        registered_map(m, sources)[sources[i].id.num] == (SourceIdentity {
            offset_array_texture: total_frames(sources.take(i)) as u32,
            len: frame_count(sources[i].from, sources[i].to) as u32,
        }),
    decreases sources.len(),
{
    let d = sources.drop_last();
    if i == sources.len() - 1 {
        assert(sources.take(i) =~= d);
    } else {
        assert(d.take(i) =~= sources.take(i));
        assert(d[i] == sources[i]);
        assert(sources.last() == sources[sources.len() - 1]);
        assert(distinct_ids(d)) by {
            assert forall|a: int, b: int|
                0 <= a < d.len() && 0 <= b < d.len() && a != b implies (#[trigger] d[a]).id.num
                != (#[trigger] d[b]).id.num by {
                assert(d[a] == sources[a]);
                assert(d[b] == sources[b]);
            }
        }
        lemma_registered_slot(m, d, i);
    }
}

/// Loading the listed files in order into the texture array puts frame `k`
/// of each source at the slot `offset_array_texture + k` recorded for it:
/// the file in that position of the list is that frame's file.
pub proof fn lemma_input_slots(m: Map<usize, SourceIdentity>, sources: Seq<Source>, i: int, k: int)
    requires
        0 <= i < sources.len(),
        0 <= k < frame_count(sources[i].from, sources[i].to),
        distinct_ids(sources),
        sources_countable(sources),
    ensures
        ({
            let slot = registered_map(m, sources)[sources[i].id.num];
            &&& slot.offset_array_texture + k < all_frame_names(sources).len()
            &&& all_frame_names(sources)[slot.offset_array_texture + k] == source_frame_names(
                sources[i],
            )[k]
        }),
{
    lemma_registered_slot(m, sources, i);
    lemma_total_frames_prefix(sources, i);
    lemma_frame_slot(sources, i, k);
}

/// The sources of a project with well-formed ids have distinct ids.
pub proof fn lemma_source_ids_distinct(infos: crate::status::SourceInfos)
    requires
        infos.ids_wf(),
    ensures
        distinct_ids(infos.sources@),
{
    assert forall|a: int, b: int|
        0 <= a < infos.sources@.len() && 0 <= b < infos.sources@.len() && a != b implies (
        #[trigger] infos.sources@[a]).id.num != (#[trigger] infos.sources@[b]).id.num by {
        assert(infos.sources@[a].id != infos.sources@[b].id);
    }
}

/// Refreshing keeps the set of loaded sources; with distinct ids, a loaded
/// source keeps its first slot and gets its current frame count.
pub proof fn lemma_refreshed_slot(m: Map<usize, SourceIdentity>, sources: Seq<Source>, i: int)
    requires
        0 <= i < sources.len(),
        distinct_ids(sources),
        m.contains_key(sources[i].id.num),
    ensures
        refreshed_map(m, sources).dom() == m.dom(),
        refreshed_map(m, sources)[sources[i].id.num] == (SourceIdentity {
            offset_array_texture: m[sources[i].id.num].offset_array_texture,
            len: frame_count(sources[i].from, sources[i].to) as u32,
        }),
    decreases sources.len(),
{
    lemma_refreshed_dom(m, sources);
    let d = sources.drop_last();
    if i < sources.len() - 1 {
        assert(d[i] == sources[i]);
        assert(sources.last() == sources[sources.len() - 1]);
        assert(distinct_ids(d)) by {
            assert forall|a: int, b: int|
                0 <= a < d.len() && 0 <= b < d.len() && a != b implies (#[trigger] d[a]).id.num
                != (#[trigger] d[b]).id.num by {
                assert(d[a] == sources[a]);
                assert(d[b] == sources[b]);
            }
        }
        lemma_refreshed_slot(m, d, i);
    } else {
        lemma_refreshed_dom(m, d);
        assert forall|j: int| 0 <= j < d.len() implies (#[trigger] d[j]).id.num != sources[i].id.num by {
            assert(d[j] == sources[j]);
        }
        lemma_refreshed_untouched(m, d, sources[i].id.num);
    }
}

/// Refreshing never adds or drops a loaded source.
pub proof fn lemma_refreshed_dom(m: Map<usize, SourceIdentity>, sources: Seq<Source>)
    ensures
        refreshed_map(m, sources).dom() == m.dom(),
    decreases sources.len(),
{
    if sources.len() > 0 {
        lemma_refreshed_dom(m, sources.drop_last());
        let prev = refreshed_map(m, sources.drop_last());
        let k = sources.last().id.num;
        if prev.contains_key(k) {
            assert(prev.insert(k, prev[k]).dom() =~= prev.dom());
            assert(refreshed_map(m, sources).dom() =~= prev.dom());
        }
    }
}

/// A source id that none of `sources` carries keeps its slots.
pub proof fn lemma_refreshed_untouched(m: Map<usize, SourceIdentity>, sources: Seq<Source>, key: usize)
    requires
        forall|j: int| 0 <= j < sources.len() ==> (#[trigger] sources[j]).id.num != key,
    ensures
        refreshed_map(m, sources).contains_key(key) == m.contains_key(key),
        m.contains_key(key) ==> refreshed_map(m, sources)[key] == m[key],
    decreases sources.len(),
{
    if sources.len() > 0 {
        let d = sources.drop_last();
        assert forall|j: int| 0 <= j < d.len() implies (#[trigger] d[j]).id.num != key by {
            assert(d[j] == sources[j]);
        }
        assert(sources.last() == sources[sources.len() - 1]);
        lemma_refreshed_untouched(m, d, key);
    }
}

/// After its length is refreshed from the slots of its source, a source
/// layer only ever draws from those slots.
pub proof fn lemma_refreshed_layer_reads_in_slots(l: LayerType, m: Map<usize, SourceIdentity>, next: u32)
    ensures
        refreshed_layer(l, m) matches LayerType::Source(info) ==> (source_read_index(info, m, next) matches Some(r)
            ==> m[info.source_id.num].offset_array_texture <= r < m[info.source_id.num].offset_array_texture
            + m[info.source_id.num].len),
{
}

} // verus!
