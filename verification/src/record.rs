//! The commands of one render pass, as a list to be recorded.
//!
//! A frame is rendered once or several times. Only the last pass writes
//! attachments and timestamps; the others run the geometry alone.
use crate::fx_gpu;
use vstd::prelude::*;

verus! {

/// Timestamps that a measured pass writes.
pub const RECORDED_STAMPS: u32 = 8;

/// Vertices of a pass that covers the screen.
pub const FULLSCREEN_VERTICES: u32 = 6;

/// A graphics pipeline.
#[derive(Clone, Copy, Debug, PartialEq, Eq, Structural)]
pub enum Pipeline {
    /// Geometry without attachments.
    Void,
    Opaque,
    Sky,
    Ground,
    Cloud,
    Plume,
    Trail,
    Glass,
    Composite,
}

/// Vertex and index buffers that are bound together.
#[derive(Clone, Copy, Debug, PartialEq, Eq, Structural)]
pub enum Geometry {
    /// The merged aircraft, opaque parts first.
    Airframe,
    /// The volume round the plume.
    Cone,
    /// The trail ribbons.
    Ribbons,
}

/// Descriptor sets that are bound together.
#[derive(Clone, Copy, Debug, PartialEq, Eq, Structural)]
pub enum Sets {
    Frame,
    FrameAndEffects,
    FrameAndComposite,
}

/// Targets that a rendering writes.
#[derive(Clone, Copy, Debug, PartialEq, Eq, Structural)]
pub enum Target {
    /// None at all.
    Void,
    /// The linear scene and its depth.
    Scene,
    /// The swapchain image.
    Output,
}

/// Stage at which a timestamp is taken.
#[derive(Clone, Copy, Debug, PartialEq, Eq, Structural)]
pub enum StampAt {
    AttachmentOutput,
    Top,
    Bottom,
}

/// One command, or a few that always go together.
#[derive(Clone, Copy, Debug, PartialEq, Eq, Structural)]
pub enum Step {
    ResetQueries { first: u32, count: u32 },
    /// Rebuild the top-level structure from the written instances, and make it
    /// visible to the shaders.
    BuildShadows,
    /// Bring the scene targets into their layouts, discarding what they held.
    PrepareScene,
    /// Hand the scene on to the shaders, and bring the swapchain image into
    /// its layout.
    SceneToOutput,
    /// Hand the swapchain image on to the display.
    OutputToPresent,
    Begin(Target),
    End,
    BindPipeline(Pipeline),
    BindSets(Sets),
    BindGeometry(Geometry),
    DrawIndexed { count: u32, first: u32 },
    Draw { vertices: u32 },
    Stamp { query: u32, at: StampAt },
}

/// What a pass draws.
#[derive(Clone, Copy, Debug, PartialEq, Eq, Structural)]
pub struct PassConfig {
    /// The pass is the one that is presented.
    pub measured: bool,
    /// Shadows are traced, and there are casters.
    pub shadows: bool,
    pub opaque_count: u32,
    pub glass_count: u32,
    pub trail_count: u32,
    /// First query of the frame.
    pub query_base: u32,
}

/// The opaque aircraft, before the first pass over the screen.
pub open spec fn opaque_steps(c: PassConfig, p: Pipeline) -> Seq<Step> {
    seq![
        Step::BindGeometry(Geometry::Airframe),
        Step::BindPipeline(p),
        Step::BindSets(Sets::Frame),
        Step::DrawIndexed { count: c.opaque_count, first: 0 },
    ]
}

/// Timestamp `q` of the frame.
pub open spec fn stamp(c: PassConfig, q: u32, at: StampAt) -> Step {
    Step::Stamp { query: (c.query_base + q) as u32, at }
}

/// Sky and ground, then clouds.
pub open spec fn backdrop_steps(c: PassConfig) -> Seq<Step> {
    seq![
        stamp(c, 1, StampAt::Top),
        Step::BindPipeline(Pipeline::Sky),
        Step::Draw { vertices: FULLSCREEN_VERTICES },
        Step::BindPipeline(Pipeline::Ground),
        Step::Draw { vertices: FULLSCREEN_VERTICES },
        stamp(c, 2, StampAt::Top),
        Step::BindPipeline(Pipeline::Cloud),
        Step::Draw { vertices: FULLSCREEN_VERTICES },
        stamp(c, 3, StampAt::Top),
    ]
}

/// The plume volume, then the ribbons.
pub open spec fn effect_steps(c: PassConfig) -> Seq<Step> {
    seq![
        Step::BindPipeline(Pipeline::Plume),
        Step::BindSets(Sets::FrameAndEffects),
        Step::BindGeometry(Geometry::Cone),
        Step::DrawIndexed { count: fx_gpu::CONE_INDEX_COUNT, first: 0 },
        stamp(c, 4, StampAt::Top),
        Step::BindPipeline(Pipeline::Trail),
        Step::BindSets(Sets::FrameAndEffects),
        Step::BindGeometry(Geometry::Ribbons),
        Step::DrawIndexed { count: c.trail_count, first: 0 },
        stamp(c, 5, StampAt::Top),
    ]
}

/// Glass, which follows the opaque part in the merged aircraft: the second
/// draw of the same buffers.
pub open spec fn glass_steps(c: PassConfig) -> Seq<Step> {
    seq![
        Step::BindGeometry(Geometry::Airframe),
        Step::BindPipeline(Pipeline::Glass),
        Step::BindSets(Sets::Frame),
        Step::DrawIndexed { count: c.glass_count, first: c.opaque_count },
        stamp(c, 6, StampAt::Top),
        Step::End,
    ]
}

/// The final pass from the linear scene to the swapchain image.
pub open spec fn composite_steps(c: PassConfig) -> Seq<Step> {
    seq![
        Step::SceneToOutput,
        Step::Begin(Target::Output),
        Step::BindPipeline(Pipeline::Composite),
        Step::BindSets(Sets::FrameAndComposite),
        Step::Draw { vertices: FULLSCREEN_VERTICES },
        Step::End,
        Step::OutputToPresent,
        stamp(c, 7, StampAt::Bottom),
    ]
}

/// What precedes the scene of a measured pass.
pub open spec fn opening_steps(c: PassConfig) -> Seq<Step> {
    let reset = seq![Step::ResetQueries { first: c.query_base, count: RECORDED_STAMPS }];
    let built = if c.shadows {
        reset.push(Step::BuildShadows)
    } else {
        reset
    };
    built.push(Step::PrepareScene).push(stamp(c, 0, StampAt::AttachmentOutput)).push(
        Step::Begin(Target::Scene),
    )
}

/// Commands of one pass.
pub open spec fn pass_steps(c: PassConfig) -> Seq<Step> {
    if c.measured {
        opening_steps(c) + opaque_steps(c, Pipeline::Opaque) + backdrop_steps(c) + effect_steps(c)
            + glass_steps(c) + composite_steps(c)
    } else {
        seq![Step::Begin(Target::Void)] + opaque_steps(c, Pipeline::Void) + seq![Step::End]
    }
}

/// List the commands of one pass.
pub fn record_pass(c: &PassConfig) -> (r: Vec<Step>)
    requires
        c.query_base + RECORDED_STAMPS <= u32::MAX,
    ensures
        r@ == pass_steps(*c),
{
    let mut out: Vec<Step> = Vec::new();
    if c.measured {
        push_opening(&mut out, c);
        push_opaque(&mut out, c, Pipeline::Opaque);
        push_backdrop(&mut out, c);
        push_effects(&mut out, c);
        push_glass(&mut out, c);
        push_composite(&mut out, c);
    } else {
        out.push(Step::Begin(Target::Void));
        assert(out@ =~= seq![Step::Begin(Target::Void)]);
        push_opaque(&mut out, c, Pipeline::Void);
        let ghost drawn = out@;
        out.push(Step::End);
        assert(out@ =~= drawn + seq![Step::End]);
    }
    out
}

fn push_opening(out: &mut Vec<Step>, c: &PassConfig)
    requires
        old(out)@.len() == 0,
    ensures
        final(out)@ == opening_steps(*c),
{
    let base: u32 = c.query_base;
    out.push(Step::ResetQueries { first: base, count: RECORDED_STAMPS });
    if c.shadows {
        out.push(Step::BuildShadows);
    }
    out.push(Step::PrepareScene);
    out.push(Step::Stamp { query: base, at: StampAt::AttachmentOutput });
    out.push(Step::Begin(Target::Scene));
    assert(out@ =~= opening_steps(*c));
}

fn push_opaque(out: &mut Vec<Step>, c: &PassConfig, p: Pipeline)
    ensures
        final(out)@ == old(out)@ + opaque_steps(*c, p),
{
    out.push(Step::BindGeometry(Geometry::Airframe));
    out.push(Step::BindPipeline(p));
    out.push(Step::BindSets(Sets::Frame));
    out.push(Step::DrawIndexed { count: c.opaque_count, first: 0 });
    assert(out@ =~= old(out)@ + opaque_steps(*c, p));
}

fn push_backdrop(out: &mut Vec<Step>, c: &PassConfig)
    requires
        c.query_base + RECORDED_STAMPS <= u32::MAX,
    ensures
        final(out)@ == old(out)@ + backdrop_steps(*c),
{
    let base: u32 = c.query_base;
    out.push(Step::Stamp { query: base + 1, at: StampAt::Top });
    out.push(Step::BindPipeline(Pipeline::Sky));
    out.push(Step::Draw { vertices: FULLSCREEN_VERTICES });
    out.push(Step::BindPipeline(Pipeline::Ground));
    out.push(Step::Draw { vertices: FULLSCREEN_VERTICES });
    out.push(Step::Stamp { query: base + 2, at: StampAt::Top });
    out.push(Step::BindPipeline(Pipeline::Cloud));
    out.push(Step::Draw { vertices: FULLSCREEN_VERTICES });
    out.push(Step::Stamp { query: base + 3, at: StampAt::Top });
    assert(out@ =~= old(out)@ + backdrop_steps(*c));
}

fn push_effects(out: &mut Vec<Step>, c: &PassConfig)
    requires
        c.query_base + RECORDED_STAMPS <= u32::MAX,
    ensures
        final(out)@ == old(out)@ + effect_steps(*c),
{
    let base: u32 = c.query_base;
    out.push(Step::BindPipeline(Pipeline::Plume));
    out.push(Step::BindSets(Sets::FrameAndEffects));
    out.push(Step::BindGeometry(Geometry::Cone));
    out.push(Step::DrawIndexed { count: fx_gpu::CONE_INDEX_COUNT, first: 0 });
    out.push(Step::Stamp { query: base + 4, at: StampAt::Top });
    out.push(Step::BindPipeline(Pipeline::Trail));
    out.push(Step::BindSets(Sets::FrameAndEffects));
    out.push(Step::BindGeometry(Geometry::Ribbons));
    out.push(Step::DrawIndexed { count: c.trail_count, first: 0 });
    out.push(Step::Stamp { query: base + 5, at: StampAt::Top });
    assert(out@ =~= old(out)@ + effect_steps(*c));
}

fn push_glass(out: &mut Vec<Step>, c: &PassConfig)
    requires
        c.query_base + RECORDED_STAMPS <= u32::MAX,
    ensures
        final(out)@ == old(out)@ + glass_steps(*c),
{
    out.push(Step::BindGeometry(Geometry::Airframe));
    out.push(Step::BindPipeline(Pipeline::Glass));
    out.push(Step::BindSets(Sets::Frame));
    out.push(Step::DrawIndexed { count: c.glass_count, first: c.opaque_count });
    out.push(Step::Stamp { query: c.query_base + 6, at: StampAt::Top });
    out.push(Step::End);
    assert(out@ =~= old(out)@ + glass_steps(*c));
}

fn push_composite(out: &mut Vec<Step>, c: &PassConfig)
    requires
        c.query_base + RECORDED_STAMPS <= u32::MAX,
    ensures
        final(out)@ == old(out)@ + composite_steps(*c),
{
    out.push(Step::SceneToOutput);
    out.push(Step::Begin(Target::Output));
    out.push(Step::BindPipeline(Pipeline::Composite));
    out.push(Step::BindSets(Sets::FrameAndComposite));
    out.push(Step::Draw { vertices: FULLSCREEN_VERTICES });
    out.push(Step::End);
    out.push(Step::OutputToPresent);
    out.push(Step::Stamp { query: c.query_base + 7, at: StampAt::Bottom });
    assert(out@ =~= old(out)@ + composite_steps(*c));
}

// ---------------------------------------------------------------------------
// What a recorder may do
// ---------------------------------------------------------------------------

/// State of a command buffer while a pass is recorded.
pub struct Recorder {
    /// Targets of the rendering that is open.
    pub target: Option<Target>,
    pub pipeline: Option<Pipeline>,
    pub sets: Option<Sets>,
    pub geometry: Option<Geometry>,
    /// The queries have been reset.
    pub reset: bool,
    /// Timestamps written.
    pub stamps: int,
    /// The scene targets can be drawn to.
    pub scene_ready: bool,
    /// The scene can be read and the swapchain image drawn to.
    pub output_ready: bool,
    /// The swapchain image is the display's.
    pub presentable: bool,
}

/// A command buffer with nothing recorded.
pub open spec fn blank() -> Recorder {
    Recorder {
        target: None,
        pipeline: None,
        sets: None,
        geometry: None,
        reset: false,
        stamps: 0,
        scene_ready: false,
        output_ready: false,
        presentable: false,
    }
}

/// Target that a pipeline is made for.
pub open spec fn pipeline_target(p: Pipeline) -> Target {
    match p {
        Pipeline::Void => Target::Void,
        Pipeline::Composite => Target::Output,
        _ => Target::Scene,
    }
}

/// Descriptor sets that a pipeline reads.
pub open spec fn pipeline_sets(p: Pipeline) -> Sets {
    match p {
        Pipeline::Plume | Pipeline::Trail => Sets::FrameAndEffects,
        Pipeline::Composite => Sets::FrameAndComposite,
        _ => Sets::Frame,
    }
}

/// Geometry that a pipeline draws, for those that draw any.
pub open spec fn pipeline_geometry(p: Pipeline) -> Option<Geometry> {
    match p {
        Pipeline::Void | Pipeline::Opaque | Pipeline::Glass => Some(Geometry::Airframe),
        Pipeline::Plume => Some(Geometry::Cone),
        Pipeline::Trail => Some(Geometry::Ribbons),
        _ => None,
    }
}

/// Indices of a geometry.
pub open spec fn index_count(c: PassConfig, g: Geometry) -> int {
    match g {
        Geometry::Airframe => c.opaque_count + c.glass_count,
        Geometry::Cone => fx_gpu::CONE_INDEX_COUNT as int,
        Geometry::Ribbons => c.trail_count as int,
    }
}

/// What is bound suits the target that is open.
pub open spec fn can_draw(r: Recorder) -> bool {
    match (r.target, r.pipeline) {
        (Some(target), Some(p)) => pipeline_target(p) == target && r.sets == Some(
            pipeline_sets(p),
        ),
        _ => false,
    }
}

/// The recorder after a command, `None` where the command may not stand there.
pub open spec fn recorded(c: PassConfig, r: Recorder, s: Step) -> Option<Recorder> {
    match s {
        Step::ResetQueries { first, count } => if r.target is None && !r.reset && first
            == c.query_base && count == RECORDED_STAMPS {
            Some(Recorder { reset: true, ..r })
        } else {
            None
        },
        Step::BuildShadows => if r.target is None {
            Some(r)
        } else {
            None
        },
        Step::PrepareScene => if r.target is None {
            Some(Recorder { scene_ready: true, ..r })
        } else {
            None
        },
        Step::SceneToOutput => if r.target is None && r.scene_ready {
            Some(Recorder { scene_ready: false, output_ready: true, ..r })
        } else {
            None
        },
        Step::OutputToPresent => if r.target is None && r.output_ready {
            Some(Recorder { output_ready: false, presentable: true, ..r })
        } else {
            None
        },
        Step::Begin(target) => if r.target is None && match target {
            Target::Void => true,
            Target::Scene => r.scene_ready,
            Target::Output => r.output_ready,
        } {
            Some(Recorder { target: Some(target), ..r })
        } else {
            None
        },
        Step::End => if r.target is Some {
            Some(Recorder { target: None, ..r })
        } else {
            None
        },
        Step::BindPipeline(p) => Some(Recorder { pipeline: Some(p), ..r }),
        Step::BindSets(sets) => Some(Recorder { sets: Some(sets), ..r }),
        Step::BindGeometry(g) => Some(Recorder { geometry: Some(g), ..r }),
        Step::DrawIndexed { count, first } => match (r.pipeline, r.geometry) {
            (Some(p), Some(g)) => if can_draw(r) && pipeline_geometry(p) == Some(g) && first + count
                <= index_count(c, g) {
                Some(r)
            } else {
                None
            },
            _ => None,
        },
        Step::Draw { vertices } => match r.pipeline {
            Some(p) => if can_draw(r) && pipeline_geometry(p) is None {
                Some(r)
            } else {
                None
            },
            None => None,
        },
        Step::Stamp { query, at } => if r.reset && query == c.query_base + r.stamps && r.stamps
            < RECORDED_STAMPS {
            Some(Recorder { stamps: r.stamps + 1, ..r })
        } else {
            None
        },
    }
}

/// The recorder after a list of commands.
pub open spec fn recorded_all(c: PassConfig, r: Option<Recorder>, steps: Seq<Step>) -> Option<
    Recorder,
>
    decreases steps.len(),
{
    if steps.len() == 0 {
        r
    } else {
        match recorded_all(c, r, steps.drop_last()) {
            Some(before) => recorded(c, before, steps.last()),
            None => None,
        }
    }
}

proof fn recorded_append(c: PassConfig, r: Option<Recorder>, a: Seq<Step>, b: Seq<Step>)
    ensures
        recorded_all(c, r, a + b) == recorded_all(c, recorded_all(c, r, a), b),
    decreases b.len(),
{
    if b.len() == 0 {
        assert(a + b =~= a);
    } else {
        recorded_append(c, r, a, b.drop_last());
        assert((a + b).drop_last() =~= a + b.drop_last());
    }
}

proof fn recorded_push(c: PassConfig, r: Option<Recorder>, a: Seq<Step>, s: Step)
    ensures
        recorded_all(c, r, a.push(s)) == (match recorded_all(c, r, a) {
            Some(before) => recorded(c, before, s),
            None => None,
        }),
{
    assert(a.push(s).drop_last() =~= a);
}

proof fn recorded_opening(c: PassConfig)
    requires
        c.query_base + RECORDED_STAMPS <= u32::MAX,
    ensures
        recorded_all(c, Some(blank()), opening_steps(c)) == Some(
            Recorder {
                target: Some(Target::Scene),
                reset: true,
                stamps: 1,
                scene_ready: true,
                ..blank()
            },
        ),
{
    let start = Some(blank());
    let none = Seq::<Step>::empty();
    let reset = Step::ResetQueries { first: c.query_base, count: RECORDED_STAMPS };
    recorded_push(c, start, none, reset);
    let one = none.push(reset);
    assert(one =~= seq![reset]);
    recorded_push(c, start, one, Step::BuildShadows);
    let built = if c.shadows { one.push(Step::BuildShadows) } else { one };
    recorded_push(c, start, built, Step::PrepareScene);
    let ready = built.push(Step::PrepareScene);
    let s0 = stamp(c, 0, StampAt::AttachmentOutput);
    recorded_push(c, start, ready, s0);
    recorded_push(c, start, ready.push(s0), Step::Begin(Target::Scene));
    assert(opening_steps(c) =~= ready.push(s0).push(Step::Begin(Target::Scene)));
}

proof fn recorded_opaque(c: PassConfig, r: Recorder, p: Pipeline)
    requires
        r.target == Some(pipeline_target(p)),
        p == Pipeline::Opaque || p == Pipeline::Void,
    ensures
        recorded_all(c, Some(r), opaque_steps(c, p)) == Some(
            Recorder {
                pipeline: Some(p),
                sets: Some(Sets::Frame),
                geometry: Some(Geometry::Airframe),
                ..r
            },
        ),
{
    reveal_with_fuel(recorded_all, 5);
    let s = opaque_steps(c, p);
    assert(s.drop_last().last() == s[2]);
    assert(s.drop_last().drop_last().last() == s[1]);
    assert(s.drop_last().drop_last().drop_last().last() == s[0]);
}

/// Commands run one after the other from the first.
spec fn recorded_forward(c: PassConfig, r: Option<Recorder>, steps: Seq<Step>, from: int) -> Option<
    Recorder,
>
    decreases steps.len() - from,
{
    if from < 0 || from >= steps.len() {
        r
    } else {
        recorded_forward(
            c,
            match r {
                Some(before) => recorded(c, before, steps[from]),
                None => None,
            },
            steps,
            from + 1,
        )
    }
}

proof fn forward_is_all(c: PassConfig, r: Option<Recorder>, steps: Seq<Step>, from: int)
    requires
        0 <= from <= steps.len(),
    ensures
        recorded_forward(c, recorded_all(c, r, steps.take(from)), steps, from) == recorded_all(
            c,
            r,
            steps,
        ),
    decreases steps.len() - from,
{
    if from < steps.len() {
        forward_is_all(c, r, steps, from + 1);
        assert(steps.take(from + 1).drop_last() =~= steps.take(from));
    } else {
        assert(steps.take(from) =~= steps);
    }
}

proof fn recorded_backdrop(c: PassConfig, r: Recorder)
    requires
        c.query_base + RECORDED_STAMPS <= u32::MAX,
        r.target == Some(Target::Scene),
        r.sets == Some(Sets::Frame),
        r.reset,
        r.stamps == 1,
    ensures
        recorded_all(c, Some(r), backdrop_steps(c)) == Some(
            Recorder { pipeline: Some(Pipeline::Cloud), stamps: 4, ..r },
        ),
{
    let s = backdrop_steps(c);
    assert(s.take(0) =~= Seq::empty());
    forward_is_all(c, Some(r), s, 0);
    reveal_with_fuel(recorded_forward, 10);
}

proof fn recorded_effects(c: PassConfig, r: Recorder)
    requires
        c.query_base + RECORDED_STAMPS <= u32::MAX,
        r.target == Some(Target::Scene),
        r.reset,
        r.stamps == 4,
    ensures
        recorded_all(c, Some(r), effect_steps(c)) == Some(
            Recorder {
                pipeline: Some(Pipeline::Trail),
                sets: Some(Sets::FrameAndEffects),
                geometry: Some(Geometry::Ribbons),
                stamps: 6,
                ..r
            },
        ),
{
    let s = effect_steps(c);
    assert(s.take(0) =~= Seq::empty());
    forward_is_all(c, Some(r), s, 0);
    reveal_with_fuel(recorded_forward, 11);
}

proof fn recorded_glass(c: PassConfig, r: Recorder)
    requires
        c.query_base + RECORDED_STAMPS <= u32::MAX,
        r.target == Some(Target::Scene),
        r.reset,
        r.stamps == 6,
    ensures
        recorded_all(c, Some(r), glass_steps(c)) == Some(
            Recorder {
                target: None,
                pipeline: Some(Pipeline::Glass),
                sets: Some(Sets::Frame),
                geometry: Some(Geometry::Airframe),
                stamps: 7,
                ..r
            },
        ),
{
    let s = glass_steps(c);
    assert(s.take(0) =~= Seq::empty());
    forward_is_all(c, Some(r), s, 0);
    reveal_with_fuel(recorded_forward, 7);
}

proof fn recorded_composite(c: PassConfig, r: Recorder)
    requires
        c.query_base + RECORDED_STAMPS <= u32::MAX,
        r.target is None,
        r.scene_ready,
        r.reset,
        r.stamps == 7,
    ensures
        recorded_all(c, Some(r), composite_steps(c)) == Some(
            Recorder {
                pipeline: Some(Pipeline::Composite),
                sets: Some(Sets::FrameAndComposite),
                stamps: 8,
                scene_ready: false,
                output_ready: false,
                presentable: true,
                ..r
            },
        ),
{
    let s = composite_steps(c);
    assert(s.take(0) =~= Seq::empty());
    forward_is_all(c, Some(r), s, 0);
    reveal_with_fuel(recorded_forward, 9);
}

/// A pass that is presented can be recorded from the first command to the
/// last. Each draw finds its pipeline, sets and geometry bound and stays
/// within its indices, each rendering is closed, the eight timestamps are
/// written once each and in order after their reset, and the swapchain image
/// ends up with the display.
pub proof fn presented_passes_are_sound(c: PassConfig)
    requires
        c.measured,
        c.query_base + RECORDED_STAMPS <= u32::MAX,
    ensures
        recorded_all(c, Some(blank()), pass_steps(c)) matches Some(r) && r.target is None && r.stamps
            == RECORDED_STAMPS && r.presentable,
{
    let start = Some(blank());
    let a = opening_steps(c);
    let b = opaque_steps(c, Pipeline::Opaque);
    let d = backdrop_steps(c);
    let e = effect_steps(c);
    let f = glass_steps(c);
    let g = composite_steps(c);
    recorded_opening(c);
    recorded_append(c, start, a, b);
    let ra = recorded_all(c, start, a)->0;
    recorded_opaque(c, ra, Pipeline::Opaque);
    let rb = recorded_all(c, start, a + b)->0;
    recorded_append(c, start, a + b, d);
    recorded_backdrop(c, rb);
    let rd = recorded_all(c, start, a + b + d)->0;
    recorded_append(c, start, a + b + d, e);
    recorded_effects(c, rd);
    let re = recorded_all(c, start, a + b + d + e)->0;
    recorded_append(c, start, a + b + d + e, f);
    recorded_glass(c, re);
    let rf = recorded_all(c, start, a + b + d + e + f)->0;
    recorded_append(c, start, a + b + d + e + f, g);
    recorded_composite(c, rf);
}

/// A pass that is not presented writes no attachment and no timestamp, and
/// can be recorded from the first command to the last.
pub proof fn void_passes_are_sound(c: PassConfig)
    requires
        !c.measured,
    ensures
        recorded_all(c, Some(blank()), pass_steps(c)) matches Some(r) && r.target is None && r.stamps
            == 0 && !r.presentable && !r.scene_ready,
{
    let start = Some(blank());
    let none = Seq::<Step>::empty();
    let begin = seq![Step::Begin(Target::Void)];
    let b = opaque_steps(c, Pipeline::Void);
    recorded_push(c, start, none, Step::Begin(Target::Void));
    assert(begin =~= none.push(Step::Begin(Target::Void)));
    recorded_append(c, start, begin, b);
    let ra = recorded_all(c, start, begin)->0;
    recorded_opaque(c, ra, Pipeline::Void);
    recorded_push(c, start, begin + b, Step::End);
    assert(pass_steps(c) =~= (begin + b).push(Step::End));
}

// ---------------------------------------------------------------------------
// What a pass puts on the screen
// ---------------------------------------------------------------------------

/// One draw, with what was bound and done when it was recorded.
pub struct Drawing {
    pub pipeline: Option<Pipeline>,
    /// First index or vertex.
    pub first: int,
    pub count: int,
    /// Timestamps taken before it.
    pub stamps: nat,
    /// The shadows had been built.
    pub shadows: bool,
}

/// What has been drawn so far, and how it was measured.
pub struct Canvas {
    pub pipeline: Option<Pipeline>,
    pub shadows: bool,
    /// Stages of the timestamps.
    pub stages: Seq<StampAt>,
    pub drawings: Seq<Drawing>,
}

/// A canvas with nothing on it.
pub open spec fn empty_canvas() -> Canvas {
    Canvas { pipeline: None, shadows: false, stages: Seq::empty(), drawings: Seq::empty() }
}

/// The canvas after a command.
pub open spec fn painted(v: Canvas, s: Step) -> Canvas {
    match s {
        Step::BuildShadows => Canvas { shadows: true, ..v },
        Step::BindPipeline(p) => Canvas { pipeline: Some(p), ..v },
        Step::Stamp { query, at } => Canvas { stages: v.stages.push(at), ..v },
        Step::DrawIndexed { count, first } => Canvas {
            drawings: v.drawings.push(
                Drawing {
                    pipeline: v.pipeline,
                    first: first as int,
                    count: count as int,
                    stamps: v.stages.len(),
                    shadows: v.shadows,
                },
            ),
            ..v
        },
        Step::Draw { vertices } => Canvas {
            drawings: v.drawings.push(
                Drawing {
                    pipeline: v.pipeline,
                    first: 0,
                    count: vertices as int,
                    stamps: v.stages.len(),
                    shadows: v.shadows,
                },
            ),
            ..v
        },
        _ => v,
    }
}

/// The canvas after the commands from `from` on.
pub open spec fn painted_from(v: Canvas, steps: Seq<Step>, from: int) -> Canvas
    decreases steps.len() - from,
{
    if from < 0 || from >= steps.len() {
        v
    } else {
        painted_from(painted(v, steps[from]), steps, from + 1)
    }
}

proof fn painted_joined(v: Canvas, a: Seq<Step>, b: Seq<Step>, from: int)
    requires
        0 <= from <= a.len(),
    ensures
        painted_from(v, a + b, from) == painted_from(painted_from(v, a, from), b, 0),
    decreases a.len() - from,
{
    if from < a.len() {
        painted_joined(painted(v, a[from]), a, b, from + 1);
    } else {
        painted_shifted(v, a, b, 0);
    }
}

proof fn painted_shifted(v: Canvas, a: Seq<Step>, b: Seq<Step>, from: int)
    requires
        0 <= from <= b.len(),
    ensures
        painted_from(v, a + b, a.len() + from) == painted_from(v, b, from),
    decreases b.len() - from,
{
    if from < b.len() {
        painted_shifted(painted(v, b[from]), a, b, from + 1);
    }
}

/// What a whole pass puts on the screen.
pub open spec fn pass_canvas(c: PassConfig) -> Canvas {
    painted_from(empty_canvas(), pass_steps(c), 0)
}

/// How near to the eye a pipeline draws: what is solid first, from the aircraft
/// to the far ground, then what is seen through, and at last the screen.
pub open spec fn layer(p: Pipeline) -> int {
    match p {
        Pipeline::Void => 0,
        Pipeline::Opaque => 1,
        Pipeline::Sky => 2,
        Pipeline::Ground => 3,
        Pipeline::Cloud => 4,
        Pipeline::Plume => 5,
        Pipeline::Trail => 6,
        Pipeline::Glass => 7,
        Pipeline::Composite => 8,
    }
}

proof fn painted_backdrop(c: PassConfig, v: Canvas)
    ensures
        ({
            let w = painted_from(v, opaque_steps(c, Pipeline::Opaque) + backdrop_steps(c), 0);
            let (n, k) = (v.drawings.len() as int, v.stages.len());
            &&& w.shadows == v.shadows
            &&& w.stages == v.stages + seq![StampAt::Top, StampAt::Top, StampAt::Top]
            &&& w.drawings.len() == n + 4
            &&& w.drawings.take(n) == v.drawings
            &&& w.drawings[n] == (Drawing {
                pipeline: Some(Pipeline::Opaque),
                first: 0,
                count: c.opaque_count as int,
                stamps: k,
                shadows: v.shadows,
            })
            &&& w.drawings[n + 1] == (Drawing {
                pipeline: Some(Pipeline::Sky),
                first: 0,
                count: 6,
                stamps: k + 1,
                shadows: v.shadows,
            })
            &&& w.drawings[n + 2] == (Drawing {
                pipeline: Some(Pipeline::Ground),
                first: 0,
                count: 6,
                stamps: k + 1,
                shadows: v.shadows,
            })
            &&& w.drawings[n + 3] == (Drawing {
                pipeline: Some(Pipeline::Cloud),
                first: 0,
                count: 6,
                stamps: k + 2,
                shadows: v.shadows,
            })
        }),
{
    reveal_with_fuel(painted_from, 14);
    let w = painted_from(v, opaque_steps(c, Pipeline::Opaque) + backdrop_steps(c), 0);
    assert(w.stages =~= v.stages + seq![StampAt::Top, StampAt::Top, StampAt::Top]);
    assert(w.drawings.take(v.drawings.len() as int) =~= v.drawings);
}

proof fn painted_effects(c: PassConfig, v: Canvas)
    ensures
        ({
            let w = painted_from(v, effect_steps(c), 0);
            let (n, k) = (v.drawings.len() as int, v.stages.len());
            &&& w.shadows == v.shadows
            &&& w.stages == v.stages + seq![StampAt::Top, StampAt::Top]
            &&& w.drawings.len() == n + 2
            &&& w.drawings.take(n) == v.drawings
            &&& w.drawings[n] == (Drawing {
                pipeline: Some(Pipeline::Plume),
                first: 0,
                count: fx_gpu::CONE_INDEX_COUNT as int,
                stamps: k,
                shadows: v.shadows,
            })
            &&& w.drawings[n + 1] == (Drawing {
                pipeline: Some(Pipeline::Trail),
                first: 0,
                count: c.trail_count as int,
                stamps: k + 1,
                shadows: v.shadows,
            })
        }),
{
    reveal_with_fuel(painted_from, 11);
    let w = painted_from(v, effect_steps(c), 0);
    assert(w.stages =~= v.stages + seq![StampAt::Top, StampAt::Top]);
    assert(w.drawings.take(v.drawings.len() as int) =~= v.drawings);
}

proof fn painted_closing(c: PassConfig, v: Canvas)
    ensures
        ({
            let w = painted_from(v, glass_steps(c) + composite_steps(c), 0);
            let (n, k) = (v.drawings.len() as int, v.stages.len());
            &&& w.shadows == v.shadows
            &&& w.stages == v.stages + seq![StampAt::Top, StampAt::Bottom]
            &&& w.drawings.len() == n + 2
            &&& w.drawings.take(n) == v.drawings
            &&& w.drawings[n] == (Drawing {
                pipeline: Some(Pipeline::Glass),
                first: c.opaque_count as int,
                count: c.glass_count as int,
                stamps: k,
                shadows: v.shadows,
            })
            &&& w.drawings[n + 1] == (Drawing {
                pipeline: Some(Pipeline::Composite),
                first: 0,
                count: 6,
                stamps: k + 1,
                shadows: v.shadows,
            })
        }),
{
    reveal_with_fuel(painted_from, 15);
    let w = painted_from(v, glass_steps(c) + composite_steps(c), 0);
    assert(w.stages =~= v.stages + seq![StampAt::Top, StampAt::Bottom]);
    assert(w.drawings.take(v.drawings.len() as int) =~= v.drawings);
}

proof fn painted_opening(c: PassConfig)
    ensures
        ({
            let w = painted_from(empty_canvas(), opening_steps(c), 0);
            &&& w.shadows == c.shadows
            &&& w.stages == seq![StampAt::AttachmentOutput]
            &&& w.drawings.len() == 0
        }),
{
    reveal_with_fuel(painted_from, 6);
    let w = painted_from(empty_canvas(), opening_steps(c), 0);
    assert(w.stages =~= seq![StampAt::AttachmentOutput]);
}

/// The drawings of a presented pass, and the timestamps around them.
proof fn whole_canvas(c: PassConfig) -> (d: Seq<Drawing>)
    requires
        c.measured,
    ensures
        d == pass_canvas(c).drawings,
        d.len() == 8,
        forall|i: int| 0 <= i < 8 ==> (#[trigger] d[i]).shadows == c.shadows,
        d[0].pipeline == Some(Pipeline::Opaque) && d[0].first == 0 && d[0].count == c.opaque_count
            && d[0].stamps == 1,
        d[1].pipeline == Some(Pipeline::Sky) && d[1].first == 0 && d[1].count == 6 && d[1].stamps
            == 2,
        d[2].pipeline == Some(Pipeline::Ground) && d[2].first == 0 && d[2].count == 6 && d[2].stamps
            == 2,
        d[3].pipeline == Some(Pipeline::Cloud) && d[3].first == 0 && d[3].count == 6 && d[3].stamps
            == 3,
        d[4].pipeline == Some(Pipeline::Plume) && d[4].first == 0 && d[4].count
            == fx_gpu::CONE_INDEX_COUNT && d[4].stamps == 4,
        d[5].pipeline == Some(Pipeline::Trail) && d[5].first == 0 && d[5].count == c.trail_count
            && d[5].stamps == 5,
        d[6].pipeline == Some(Pipeline::Glass) && d[6].first == c.opaque_count && d[6].count
            == c.glass_count && d[6].stamps == 6,
        d[7].pipeline == Some(Pipeline::Composite) && d[7].first == 0 && d[7].count == 6
            && d[7].stamps == 7,
        pass_canvas(c).stages.len() == 8,
        pass_canvas(c).stages[0] == StampAt::AttachmentOutput,
        pass_canvas(c).stages[7] == StampAt::Bottom,
        forall|i: int| 0 < i < 7 ==> #[trigger] pass_canvas(c).stages[i] == StampAt::Top,
{
    let start = empty_canvas();
    let a = opening_steps(c);
    let b = opaque_steps(c, Pipeline::Opaque) + backdrop_steps(c);
    let e = effect_steps(c);
    let f = glass_steps(c) + composite_steps(c);
    assert(pass_steps(c) =~= a + b + e + f);
    painted_joined(start, a + b + e, f, 0);
    painted_joined(start, a + b, e, 0);
    painted_joined(start, a, b, 0);
    let va = painted_from(start, a, 0);
    let vb = painted_from(va, b, 0);
    let ve = painted_from(vb, e, 0);
    let vf = painted_from(ve, f, 0);
    painted_opening(c);
    painted_backdrop(c, va);
    painted_effects(c, vb);
    painted_closing(c, ve);
    let d = vf.drawings;
    assert(vf == pass_canvas(c));
    assert forall|i: int| 0 <= i < 6 implies #[trigger] d[i] == ve.drawings[i] by {
        assert(d.take(6)[i] == d[i]);
    }
    assert forall|i: int| 0 <= i < 4 implies #[trigger] ve.drawings[i] == vb.drawings[i] by {
        assert(ve.drawings.take(4)[i] == ve.drawings[i]);
    }
    d
}

/// A presented pass draws layer by layer, and each layer once: the solid things
/// first, then what is seen through them, and the screen last. Shadows are there
/// for every draw where they are asked for, and only there. A pass that is not
/// presented draws once, without targets.
pub proof fn passes_draw_layer_by_layer(c: PassConfig)
    ensures
        ({
            let d = pass_canvas(c).drawings;
            &&& c.measured ==> d.len() == 8
            &&& !c.measured ==> d.len() == 1 && d[0].pipeline == Some(Pipeline::Void)
            &&& forall|i: int|
                #![trigger d[i]]
                0 <= i < d.len() ==> (d[i].pipeline matches Some(p) && (p == Pipeline::Void
                    <==> !c.measured) && (d[i].shadows <==> c.shadows && c.measured))
            &&& forall|i: int, j: int|
                #![trigger d[i], d[j]]
                0 <= i < j < d.len() ==> layer(d[i].pipeline->0) < layer(d[j].pipeline->0)
        }),
{
    if c.measured {
        let d = whole_canvas(c);
    } else {
        painted_void(c);
    }
}

proof fn painted_void(c: PassConfig)
    requires
        !c.measured,
    ensures
        pass_canvas(c).drawings == seq![
            Drawing {
                pipeline: Some(Pipeline::Void),
                first: 0,
                count: c.opaque_count as int,
                stamps: 0,
                shadows: false,
            },
        ],
{
    reveal_with_fuel(painted_from, 7);
    let d = pass_canvas(c).drawings;
    assert(d =~= seq![
        Drawing {
            pipeline: Some(Pipeline::Void),
            first: 0,
            count: c.opaque_count as int,
            stamps: 0,
            shadows: false,
        },
    ]);
}

/// A drawing shows an index of the aircraft.
pub open spec fn shows(d: Drawing, k: int) -> bool {
    &&& d.pipeline == Some(Pipeline::Opaque) || d.pipeline == Some(Pipeline::Glass) || d.pipeline
        == Some(Pipeline::Void)
    &&& d.first <= k < d.first + d.count
}

/// Every index of the aircraft is shown by one drawing of a presented pass: the
/// opaque ones by the first call and the others, behind them, as glass. A pass
/// that is not presented runs over the opaque ones alone.
pub proof fn the_aircraft_is_drawn_once(c: PassConfig, i: int, k: int)
    requires
        0 <= i < pass_canvas(c).drawings.len(),
    ensures
        ({
            let d = pass_canvas(c).drawings;
            &&& c.measured ==> (shows(d[i], k) <==> (d[i].pipeline == Some(Pipeline::Opaque) && 0
                <= k < c.opaque_count || d[i].pipeline == Some(Pipeline::Glass) && c.opaque_count
                <= k < c.opaque_count + c.glass_count))
            &&& !c.measured ==> (shows(d[i], k) <==> 0 <= k < c.opaque_count)
        }),
{
    if c.measured {
        let d = whole_canvas(c);
    } else {
        painted_void(c);
    }
}

/// What covers the screen is drawn as two triangles, and effects with all that
/// there is of them.
pub proof fn screens_are_covered(c: PassConfig, i: int)
    requires
        c.measured,
        0 <= i < pass_canvas(c).drawings.len(),
    ensures
        ({
            let d = pass_canvas(c).drawings[i];
            &&& pipeline_geometry(d.pipeline->0) is None ==> d.first == 0 && d.count == 2 * 3
            &&& d.pipeline == Some(Pipeline::Plume) ==> d.first == 0 && d.count == index_count(
                c,
                Geometry::Cone,
            )
            &&& d.pipeline == Some(Pipeline::Trail) ==> d.first == 0 && d.count == index_count(
                c,
                Geometry::Ribbons,
            )
        }),
{
    let d = whole_canvas(c);
}

/// Each layer lies between two timestamps of its own, but for sky and ground,
/// which share theirs. The first timestamp waits for the attachments, the last
/// for all that was drawn, and a pass that is not presented takes none.
pub proof fn layers_are_timed_apart(c: PassConfig, i: int)
    requires
        c.measured,
        0 <= i < pass_canvas(c).drawings.len(),
    ensures
        ({
            let v = pass_canvas(c);
            let at = v.drawings[i].stamps;
            &&& v.stages.len() == 8
            &&& v.stages[0] == StampAt::AttachmentOutput && v.stages[7] == StampAt::Bottom
            &&& forall|q: int| 0 < q < 7 ==> #[trigger] v.stages[q] == StampAt::Top
            &&& 0 < at < 8
            &&& i == 0 ==> at == 1
            &&& i > 0 ==> (v.drawings[i - 1].stamps == at <==> v.drawings[i].pipeline == Some(
                Pipeline::Ground,
            ))
            &&& i > 0 ==> at <= v.drawings[i - 1].stamps + 1
            &&& i > 0 ==> v.drawings[i - 1].stamps <= at
        }),
{
    let d = whole_canvas(c);
}

} // verus!
