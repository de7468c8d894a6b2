//! What each pipeline is made of: shaders, vertex attributes, descriptors and
//! fixed state.
use crate::frames;
use crate::fx_gpu;
use crate::mesh;
use crate::mesh::VertexBits;
use crate::plane;
use crate::quality::{Rate, Settings};
use crate::record;
use crate::record::{Geometry, Pipeline};
use vstd::prelude::*;

verus! {

// ---------------------------------------------------------------------------
// Vertex attributes
// ---------------------------------------------------------------------------

/// Numbers of a vertex attribute.
#[derive(Clone, Copy, Debug, PartialEq, Eq, Structural)]
pub enum Format {
    Float,
    Float2,
    Float3,
    Half2,
    Int16x2,
    Uint16x2,
}

/// Bytes of an attribute.
pub open spec fn format_bytes(f: Format) -> int {
    match f {
        Format::Float => 4,
        Format::Float2 => 8,
        Format::Float3 => 12,
        Format::Half2 | Format::Int16x2 | Format::Uint16x2 => 4,
    }
}

/// A vertex attribute. Its place in the list is its shader location.
#[derive(Clone, Copy, Debug, PartialEq, Eq, Structural)]
pub struct Attribute {
    pub offset: u32,
    pub format: Format,
}

/// Attributes of a geometry's vertices. The aircraft: position, octahedral
/// normal, texture coordinates, flex, node and material. The plume: position,
/// axial and radial place. The ribbons: centre, side, age, density, texture
/// coordinates, seed, radius and ice.
pub open spec fn attribute_list(g: Geometry) -> Seq<Attribute> {
    match g {
        Geometry::Airframe => seq![
            Attribute { offset: 0, format: Format::Float3 },
            Attribute { offset: 12, format: Format::Int16x2 },
            Attribute { offset: 16, format: Format::Half2 },
            Attribute { offset: 20, format: Format::Float },
            Attribute { offset: 24, format: Format::Uint16x2 },
        ],
        Geometry::Cone => seq![
            Attribute { offset: 0, format: Format::Float3 },
            Attribute { offset: 12, format: Format::Float },
            Attribute { offset: 16, format: Format::Float },
        ],
        Geometry::Ribbons => seq![
            Attribute { offset: 0, format: Format::Float3 },
            Attribute { offset: 12, format: Format::Float3 },
            Attribute { offset: 24, format: Format::Float },
            Attribute { offset: 28, format: Format::Float },
            Attribute { offset: 32, format: Format::Float2 },
            Attribute { offset: 40, format: Format::Float },
            Attribute { offset: 44, format: Format::Float },
            Attribute { offset: 48, format: Format::Float },
        ],
    }
}

/// Attributes of a geometry's vertices.
pub fn attributes(g: Geometry) -> (r: Vec<Attribute>)
    ensures
        r@ == attribute_list(g),
{
    let r: Vec<Attribute> = match g {
        Geometry::Airframe => vec![
            Attribute { offset: 0, format: Format::Float3 },
            Attribute { offset: 12, format: Format::Int16x2 },
            Attribute { offset: 16, format: Format::Half2 },
            Attribute { offset: 20, format: Format::Float },
            Attribute { offset: 24, format: Format::Uint16x2 },
        ],
        Geometry::Cone => vec![
            Attribute { offset: 0, format: Format::Float3 },
            Attribute { offset: 12, format: Format::Float },
            Attribute { offset: 16, format: Format::Float },
        ],
        Geometry::Ribbons => vec![
            Attribute { offset: 0, format: Format::Float3 },
            Attribute { offset: 12, format: Format::Float3 },
            Attribute { offset: 24, format: Format::Float },
            Attribute { offset: 28, format: Format::Float },
            Attribute { offset: 32, format: Format::Float2 },
            Attribute { offset: 40, format: Format::Float },
            Attribute { offset: 44, format: Format::Float },
            Attribute { offset: 48, format: Format::Float },
        ],
    };
    assert(r@ =~= attribute_list(g));
    r
}

/// Bytes of a geometry's vertex.
pub open spec fn vertex_stride(g: Geometry) -> int {
    match g {
        Geometry::Airframe => plane::VERTEX_BYTES as int,
        Geometry::Cone => fx_gpu::PLUME_VERT_BYTES as int,
        Geometry::Ribbons => fx_gpu::TRAIL_VERT_BYTES as int,
    }
}

/// Bytes of a geometry's vertex.
pub fn stride(g: Geometry) -> (r: u32)
    ensures
        r == vertex_stride(g),
{
    match g {
        Geometry::Airframe => plane::VERTEX_BYTES as u32,
        Geometry::Cone => fx_gpu::PLUME_VERT_BYTES as u32,
        Geometry::Ribbons => fx_gpu::TRAIL_VERT_BYTES as u32,
    }
}

/// The attributes of a geometry fill its vertex: each begins where the one
/// before it ends, and the last ends with the vertex.
pub proof fn attributes_fill_the_vertex(g: Geometry)
    ensures
        attribute_list(g).len() > 0,
        attribute_list(g)[0].offset == 0,
        forall|i: int|
            0 < i < attribute_list(g).len() ==> (#[trigger] attribute_list(g)[i]).offset
                == attribute_list(g)[i - 1].offset + format_bytes(attribute_list(g)[i - 1].format),
        attribute_list(g).last().offset + format_bytes(attribute_list(g).last().format)
            == vertex_stride(g),
{
    match g {
        Geometry::Airframe => {},
        Geometry::Cone => {},
        Geometry::Ribbons => {},
    }
}

/// The attributes of the aircraft read what merging writes: each finds its
/// number at its offset in the bytes of a vertex.
pub proof fn attributes_read_merged_vertices(v: VertexBits, node: u16, mat: u16)
    ensures
        ({
            let bytes = mesh::vertex_bytes(v, node, mat);
            let at = attribute_list(Geometry::Airframe);
            &&& bytes.len() == vertex_stride(Geometry::Airframe)
            &&& bytes.subrange(at[0].offset as int, at[0].offset + 12) == mesh::le32(v.pos[0])
                + mesh::le32(v.pos[1]) + mesh::le32(v.pos[2])
            &&& bytes.subrange(at[1].offset as int, at[1].offset + 4) == mesh::le16(v.oct[0])
                + mesh::le16(v.oct[1])
            &&& bytes.subrange(at[2].offset as int, at[2].offset + 4) == mesh::le16(v.uv[0])
                + mesh::le16(v.uv[1])
            &&& bytes.subrange(at[3].offset as int, at[3].offset + 4) == mesh::le32(v.flex)
            &&& bytes.subrange(at[4].offset as int, at[4].offset + 4) == mesh::le16(node)
                + mesh::le16(mat)
        }),
{
    let bytes = mesh::vertex_bytes(v, node, mat);
    assert(bytes.subrange(0, 12) =~= mesh::le32(v.pos[0]) + mesh::le32(v.pos[1]) + mesh::le32(
        v.pos[2],
    ));
    assert(bytes.subrange(12, 16) =~= mesh::le16(v.oct[0]) + mesh::le16(v.oct[1]));
    assert(bytes.subrange(16, 20) =~= mesh::le16(v.uv[0]) + mesh::le16(v.uv[1]));
    assert(bytes.subrange(20, 24) =~= mesh::le32(v.flex));
    assert(bytes.subrange(24, 28) =~= mesh::le16(node) + mesh::le16(mat));
}

// ---------------------------------------------------------------------------
// Descriptors
// ---------------------------------------------------------------------------

/// A kind of descriptor set.
#[derive(Clone, Copy, Debug, PartialEq, Eq, Structural)]
pub enum SetKind {
    Frame,
    Effects,
    Composite,
}

/// A kind of descriptor.
#[derive(Clone, Copy, Debug, PartialEq, Eq, Structural)]
pub enum Descriptor {
    Uniform,
    Image,
    Sampler,
    /// A top-level acceleration structure.
    Structure,
}

/// Descriptors of a set, by binding. The frame: uniforms, weave, energy table
/// and shadows. The effects: both noise volumes and the curl field. The
/// composite: the linear scene.
pub open spec fn binding_list(kind: SetKind) -> Seq<Descriptor> {
    match kind {
        SetKind::Frame => seq![
            Descriptor::Uniform,
            Descriptor::Image,
            Descriptor::Sampler,
            Descriptor::Image,
            Descriptor::Sampler,
            Descriptor::Structure,
        ],
        SetKind::Effects => seq![
            Descriptor::Image,
            Descriptor::Sampler,
            Descriptor::Image,
            Descriptor::Sampler,
            Descriptor::Image,
            Descriptor::Sampler,
        ],
        SetKind::Composite => seq![Descriptor::Image, Descriptor::Sampler],
    }
}

/// Descriptors of a set, by binding.
pub fn bindings(kind: SetKind) -> (r: Vec<Descriptor>)
    ensures
        r@ == binding_list(kind),
{
    let r: Vec<Descriptor> = match kind {
        SetKind::Frame => vec![
            Descriptor::Uniform,
            Descriptor::Image,
            Descriptor::Sampler,
            Descriptor::Image,
            Descriptor::Sampler,
            Descriptor::Structure,
        ],
        SetKind::Effects => vec![
            Descriptor::Image,
            Descriptor::Sampler,
            Descriptor::Image,
            Descriptor::Sampler,
            Descriptor::Image,
            Descriptor::Sampler,
        ],
        SetKind::Composite => vec![Descriptor::Image, Descriptor::Sampler],
    };
    assert(r@ =~= binding_list(kind));
    r
}

/// How many descriptors of one kind a list has.
pub open spec fn descriptor_count(list: Seq<Descriptor>, d: Descriptor) -> int
    decreases list.len(),
{
    if list.len() == 0 {
        0
    } else {
        descriptor_count(list.drop_last(), d) + if list.last() == d {
            1int
        } else {
            0
        }
    }
}

/// The pools of the effect sets and of the composite sets hold just what
/// those sets take.
pub proof fn effect_pools_are_exact(slots: u32)
    requires
        slots * 3 <= u32::MAX,
    ensures
        frames::pools_for(slots).fx_images == slots * descriptor_count(binding_list(SetKind::Effects), Descriptor::Image),
        frames::pools_for(slots).fx_samplers == slots * descriptor_count(
            binding_list(SetKind::Effects),
            Descriptor::Sampler,
        ),
        frames::pools_for(slots).composite_images == slots * descriptor_count(
            binding_list(SetKind::Composite),
            Descriptor::Image,
        ),
        frames::pools_for(slots).composite_samplers == slots * descriptor_count(
            binding_list(SetKind::Composite),
            Descriptor::Sampler,
        ),
{
    reveal_with_fuel(descriptor_count, 7);
    let e = binding_list(SetKind::Effects);
    let c = binding_list(SetKind::Composite);
    count_of_six(e, Descriptor::Image);
    count_of_six(e, Descriptor::Sampler);
    let one = c.drop_last();
    assert(one.last() == Descriptor::Image);
    assert(one.drop_last() =~= Seq::empty());
    assert(descriptor_count(c, Descriptor::Image) == 1);
    assert(descriptor_count(c, Descriptor::Sampler) == 1);
}

proof fn count_of_six(list: Seq<Descriptor>, d: Descriptor)
    requires
        list.len() == 6,
    ensures
        descriptor_count(list, d) == one_if(list[0] == d) + one_if(list[1] == d) + one_if(
            list[2] == d,
        ) + one_if(list[3] == d) + one_if(list[4] == d) + one_if(list[5] == d),
{
    let a = list.drop_last();
    let b = a.drop_last();
    let c = b.drop_last();
    let e = c.drop_last();
    let f = e.drop_last();
    assert(f.drop_last() =~= Seq::empty());
    reveal_with_fuel(descriptor_count, 7);
    assert(descriptor_count(f, d) == one_if(list[0] == d));
    assert(descriptor_count(e, d) == descriptor_count(f, d) + one_if(list[1] == d));
    assert(descriptor_count(c, d) == descriptor_count(e, d) + one_if(list[2] == d));
    assert(descriptor_count(b, d) == descriptor_count(c, d) + one_if(list[3] == d));
    assert(descriptor_count(a, d) == descriptor_count(b, d) + one_if(list[4] == d));
}

spec fn one_if(b: bool) -> int {
    if b {
        1
    } else {
        0
    }
}

// ---------------------------------------------------------------------------
// Fixed state
// ---------------------------------------------------------------------------

/// A shader module. Those that trace shadows have a second variant.
#[derive(Clone, Copy, Debug, PartialEq, Eq, Structural)]
pub enum Shader {
    PlaneVert,
    PlaneFrag,
    PlaneFragTraced,
    DepthFrag,
    SkyVert,
    SkyFrag,
    GroundVert,
    GroundFrag,
    GroundFragTraced,
    CloudFrag,
    PlumeVert,
    PlumeFrag,
    TrailVert,
    TrailFrag,
    CompositeVert,
    CompositeFrag,
}

/// How a pipeline uses the depth attachment.
#[derive(Clone, Copy, Debug, PartialEq, Eq, Structural)]
pub enum Depth {
    Ignored,
    /// A fragment is kept where it is nearer, or as near where `or_equal`.
    Tested { or_equal: bool, written: bool },
}

/// How a pipeline's colour meets what is there.
#[derive(Clone, Copy, Debug, PartialEq, Eq, Structural)]
pub enum Blend {
    /// There is no colour attachment.
    Absent,
    Replace,
    /// Colour that is multiplied by its alpha already.
    Premultiplied,
    /// As above, with alpha blended too.
    PremultipliedAlpha,
    /// Colour that is still to be multiplied by its alpha.
    Alpha,
}

/// The state of a pipeline.
#[derive(Clone, Copy, Debug, PartialEq, Eq, Structural)]
pub struct PipelineState {
    pub vertex: Shader,
    pub fragment: Shader,
    pub depth: Depth,
    pub blend: Blend,
    /// Faces towards the camera are dropped.
    pub cull_front: bool,
    /// Pixels that are shaded together.
    pub rate: Rate,
}

/// Every pixel is shaded for itself.
pub open spec fn full() -> Rate {
    Rate { width: 1, height: 1 }
}

/// The state of a pipeline, given whether shadows are traced and, where the
/// device can shade coarsely, the settings to do it by. The aircraft is always
/// shaded in full.
pub open spec fn state_of(p: Pipeline, traced: bool, coarse: Option<Settings>) -> PipelineState {
    let sky = match coarse {
        Some(s) => s.sky,
        None => full(),
    };
    let ground = match coarse {
        Some(s) => s.ground,
        None => full(),
    };
    let composite = match coarse {
        Some(s) => s.composite,
        None => full(),
    };
    let plume = if coarse is Some {
        Rate { width: 2, height: 2 }
    } else {
        full()
    };
    let plane_frag = if traced {
        Shader::PlaneFragTraced
    } else {
        Shader::PlaneFrag
    };
    match p {
        Pipeline::Void => PipelineState {
            vertex: Shader::PlaneVert,
            fragment: Shader::DepthFrag,
            depth: Depth::Ignored,
            blend: Blend::Absent,
            cull_front: false,
            rate: full(),
        },
        Pipeline::Opaque => PipelineState {
            vertex: Shader::PlaneVert,
            fragment: plane_frag,
            depth: Depth::Tested { or_equal: false, written: true },
            blend: Blend::Replace,
            cull_front: false,
            rate: full(),
        },
        Pipeline::Glass => PipelineState {
            vertex: Shader::PlaneVert,
            fragment: plane_frag,
            depth: Depth::Tested { or_equal: false, written: false },
            blend: Blend::Premultiplied,
            cull_front: false,
            rate: full(),
        },
        Pipeline::Sky => PipelineState {
            vertex: Shader::SkyVert,
            fragment: Shader::SkyFrag,
            depth: Depth::Tested { or_equal: true, written: false },
            blend: Blend::Replace,
            cull_front: false,
            rate: sky,
        },
        Pipeline::Ground => PipelineState {
            vertex: Shader::GroundVert,
            fragment: if traced {
                Shader::GroundFragTraced
            } else {
                Shader::GroundFrag
            },
            depth: Depth::Tested { or_equal: true, written: true },
            blend: Blend::Replace,
            cull_front: false,
            rate: ground,
        },
        Pipeline::Cloud => PipelineState {
            vertex: Shader::SkyVert,
            fragment: Shader::CloudFrag,
            depth: Depth::Tested { or_equal: true, written: true },
            blend: Blend::Premultiplied,
            cull_front: false,
            rate: sky,
        },
        Pipeline::Plume => PipelineState {
            vertex: Shader::PlumeVert,
            fragment: Shader::PlumeFrag,
            depth: Depth::Ignored,
            blend: Blend::PremultipliedAlpha,
            cull_front: true,
            rate: plume,
        },
        Pipeline::Trail => PipelineState {
            vertex: Shader::TrailVert,
            fragment: Shader::TrailFrag,
            depth: Depth::Tested { or_equal: false, written: false },
            blend: Blend::Alpha,
            cull_front: false,
            rate: full(),
        },
        Pipeline::Composite => PipelineState {
            vertex: Shader::CompositeVert,
            fragment: Shader::CompositeFrag,
            depth: Depth::Ignored,
            blend: Blend::Replace,
            cull_front: false,
            rate: composite,
        },
    }
}

/// The state of a pipeline.
pub fn pipeline_state(p: Pipeline, traced: bool, coarse: Option<Settings>) -> (r: PipelineState)
    ensures
        r == state_of(p, traced, coarse),
{
    let full = Rate { width: 1, height: 1 };
    let sky = match coarse {
        Some(s) => s.sky,
        None => full,
    };
    let ground = match coarse {
        Some(s) => s.ground,
        None => full,
    };
    let composite = match coarse {
        Some(s) => s.composite,
        None => full,
    };
    let plume = if coarse.is_some() {
        Rate { width: 2, height: 2 }
    } else {
        full
    };
    let plane_frag = if traced {
        Shader::PlaneFragTraced
    } else {
        Shader::PlaneFrag
    };
    match p {
        // The vertex stage and the rasteriser run, and nothing is stored.
        Pipeline::Void => PipelineState {
            vertex: Shader::PlaneVert,
            fragment: Shader::DepthFrag,
            depth: Depth::Ignored,
            blend: Blend::Absent,
            cull_front: false,
            rate: full,
        },
        Pipeline::Opaque => PipelineState {
            vertex: Shader::PlaneVert,
            fragment: plane_frag,
            depth: Depth::Tested { or_equal: false, written: true },
            blend: Blend::Replace,
            cull_front: false,
            rate: full,
        },
        Pipeline::Glass => PipelineState {
            vertex: Shader::PlaneVert,
            fragment: plane_frag,
            depth: Depth::Tested { or_equal: false, written: false },
            blend: Blend::Premultiplied,
            cull_front: false,
            rate: full,
        },
        // Coarse shading keeps smooth gradients and saves most of the march.
        Pipeline::Sky => PipelineState {
            vertex: Shader::SkyVert,
            fragment: Shader::SkyFrag,
            depth: Depth::Tested { or_equal: true, written: false },
            blend: Blend::Replace,
            cull_front: false,
            rate: sky,
        },
        Pipeline::Ground => PipelineState {
            vertex: Shader::GroundVert,
            fragment: if traced {
                Shader::GroundFragTraced
            } else {
                Shader::GroundFrag
            },
            depth: Depth::Tested { or_equal: true, written: true },
            blend: Blend::Replace,
            cull_front: false,
            rate: ground,
        },
        // Clouds write depth so that they sort against the aircraft.
        Pipeline::Cloud => PipelineState {
            vertex: Shader::SkyVert,
            fragment: Shader::CloudFrag,
            depth: Depth::Tested { or_equal: true, written: true },
            blend: Blend::Premultiplied,
            cull_front: false,
            rate: sky,
        },
        // Front faces are dropped so that the camera can enter the volume,
        // and the nozzle's depth does not cut it.
        Pipeline::Plume => PipelineState {
            vertex: Shader::PlumeVert,
            fragment: Shader::PlumeFrag,
            depth: Depth::Ignored,
            blend: Blend::PremultipliedAlpha,
            cull_front: true,
            rate: plume,
        },
        // Gas never hides anything, and is hidden by everything.
        Pipeline::Trail => PipelineState {
            vertex: Shader::TrailVert,
            fragment: Shader::TrailFrag,
            depth: Depth::Tested { or_equal: false, written: false },
            blend: Blend::Alpha,
            cull_front: false,
            rate: full,
        },
        Pipeline::Composite => PipelineState {
            vertex: Shader::CompositeVert,
            fragment: Shader::CompositeFrag,
            depth: Depth::Ignored,
            blend: Blend::Replace,
            cull_front: false,
            rate: composite,
        },
    }
}

/// Colour goes where there is a colour attachment, and depth is used only
/// where there is a depth attachment. The aircraft is shaded in full, and so is
/// everything without coarse shading.
pub proof fn pipelines_suit_their_targets(p: Pipeline, traced: bool, coarse: Option<Settings>)
    ensures
        ({
            let s = state_of(p, traced, coarse);
            &&& s.blend == Blend::Absent <==> record::pipeline_target(p) == record::Target::Void
            &&& s.depth != Depth::Ignored ==> record::pipeline_target(p) == record::Target::Scene
            &&& s.vertex == Shader::PlaneVert ==> s.rate == full()
            &&& coarse is None ==> s.rate == full()
        }),
{
}

// ---------------------------------------------------------------------------
// What is seen
// ---------------------------------------------------------------------------

/// A fragment at some distance is kept where the nearest one so far is at
/// `there`.
pub open spec fn keeps(d: Depth, fragment: int, there: int) -> bool {
    match d {
        Depth::Ignored => true,
        Depth::Tested { or_equal, written } => fragment < there || or_equal && fragment == there,
    }
}

/// The nearest distance once the fragment was drawn.
pub open spec fn nearest_after(d: Depth, fragment: int, there: int) -> int {
    match d {
        Depth::Ignored => there,
        Depth::Tested { or_equal, written } => if written && keeps(d, fragment, there) {
            fragment
        } else {
            there
        },
    }
}

/// Nothing in the scene is painted over by what lies behind it, but for the
/// plume, which glows through. What covers the whole screen also fills pixels
/// where nothing was drawn, at the distance that these were cleared to;
/// geometry does not come to lie over itself.
pub proof fn nearer_things_stay_visible(
    p: Pipeline,
    traced: bool,
    coarse: Option<Settings>,
    fragment: int,
    there: int,
)
    requires
        record::pipeline_target(p) == record::Target::Scene,
    ensures
        ({
            let d = state_of(p, traced, coarse).depth;
            &&& p != Pipeline::Plume && there < fragment ==> !keeps(d, fragment, there)
            &&& fragment < there ==> keeps(d, fragment, there)
            &&& p != Pipeline::Plume ==> (keeps(d, there, there)
                <==> record::pipeline_geometry(p) is None)
            &&& p == Pipeline::Plume ==> keeps(d, fragment, there)
        }),
{
}

/// Solid things hide what lies behind them from then on: the opaque aircraft,
/// the ground, and the clouds, which sort against the aircraft. The sky, glass
/// and gas hide nothing.
pub proof fn solid_things_hide(
    p: Pipeline,
    traced: bool,
    coarse: Option<Settings>,
    fragment: int,
    there: int,
)
    requires
        fragment < there,
    ensures
        ({
            let d = state_of(p, traced, coarse).depth;
            let solid = p == Pipeline::Opaque || p == Pipeline::Ground || p == Pipeline::Cloud;
            &&& nearest_after(d, fragment, there) == if solid {
                fragment
            } else {
                there
            }
            &&& nearest_after(d, there, fragment) == fragment
        }),
{
}

/// Share of what was there that is seen through a fragment of some
/// transparency, of a hundred: all of it where the fragment is clear.
pub open spec fn seen_through(b: Blend, clear: int) -> int {
    match b {
        Blend::Absent => 100,
        Blend::Replace => 0,
        Blend::Premultiplied | Blend::PremultipliedAlpha | Blend::Alpha => clear,
    }
}

/// What is behind glass, clouds and gas is seen through them. Everything else
/// that has colour takes the place of what was there. Ribbons alone come with
/// colours that are still to be weighed, and the plume alone blends its alpha.
pub proof fn clear_things_are_seen_through(
    p: Pipeline,
    traced: bool,
    coarse: Option<Settings>,
    clear: int,
)
    requires
        0 < clear <= 100,
    ensures
        ({
            let b = state_of(p, traced, coarse).blend;
            let through = p == Pipeline::Glass || p == Pipeline::Cloud || p == Pipeline::Plume || p
                == Pipeline::Trail;
            &&& through ==> seen_through(b, clear) == clear
            &&& !through && p != Pipeline::Void ==> seen_through(b, clear) == 0
            &&& p == Pipeline::Void ==> seen_through(b, clear) == 100
            &&& b == Blend::Alpha <==> p == Pipeline::Trail
            &&& b == Blend::PremultipliedAlpha <==> p == Pipeline::Plume
            &&& state_of(p, traced, coarse).cull_front <==> p == Pipeline::Plume
        }),
{
}

/// A pipeline's vertex shader reads the geometry that the pipeline draws. The
/// passes over the whole screen have shaders that read none, and clouds share
/// that of the sky.
pub proof fn shaders_read_their_geometry(p: Pipeline, traced: bool, coarse: Option<Settings>)
    ensures
        ({
            let v = state_of(p, traced, coarse).vertex;
            let g = record::pipeline_geometry(p);
            &&& v == Shader::PlaneVert <==> g == Some(Geometry::Airframe)
            &&& v == Shader::PlumeVert <==> g == Some(Geometry::Cone)
            &&& v == Shader::TrailVert <==> g == Some(Geometry::Ribbons)
            &&& v == Shader::SkyVert <==> p == Pipeline::Sky || p == Pipeline::Cloud
            &&& v == Shader::GroundVert <==> p == Pipeline::Ground
            &&& v == Shader::CompositeVert <==> p == Pipeline::Composite
        }),
{
}

/// Whether a shader traces shadows.
pub open spec fn traces(s: Shader) -> bool {
    s == Shader::PlaneFragTraced || s == Shader::GroundFragTraced
}

/// Shadows fall on the aircraft, its glass and the ground, where they are
/// traced at all. Nothing else about a pipeline depends on it.
pub proof fn shadows_fall_on_solid_ground(p: Pipeline, coarse: Option<Settings>)
    ensures
        ({
            let (on, off) = (state_of(p, true, coarse), state_of(p, false, coarse));
            &&& !traces(off.fragment)
            &&& traces(on.fragment) <==> p == Pipeline::Opaque || p == Pipeline::Glass || p
                == Pipeline::Ground
            &&& !traces(on.fragment) ==> on == off
            &&& on == (PipelineState { fragment: on.fragment, ..off })
            &&& off.fragment == Shader::PlaneFrag <==> p == Pipeline::Opaque || p == Pipeline::Glass
            &&& on.fragment == Shader::PlaneFragTraced <==> off.fragment == Shader::PlaneFrag
            &&& on.fragment == Shader::GroundFragTraced <==> off.fragment == Shader::GroundFrag
        }),
{
}

/// Pipelines share a fragment shader only where they draw the same surface:
/// the aircraft and its glass do, no others.
pub proof fn surfaces_have_their_own_shaders(
    p: Pipeline,
    q: Pipeline,
    traced: bool,
    coarse: Option<Settings>,
)
    requires
        p != q,
        state_of(p, traced, coarse).fragment == state_of(q, traced, coarse).fragment,
    ensures
        p == Pipeline::Opaque && q == Pipeline::Glass || p == Pipeline::Glass && q
            == Pipeline::Opaque,
{
}

/// A pass is named after the shader that colours it.
pub proof fn passes_are_coloured_by_their_shaders(
    p: Pipeline,
    traced: bool,
    coarse: Option<Settings>,
)
    ensures
        ({
            let f = state_of(p, traced, coarse).fragment;
            &&& f == Shader::DepthFrag <==> p == Pipeline::Void
            &&& f == Shader::SkyFrag <==> p == Pipeline::Sky
            &&& f == Shader::CloudFrag <==> p == Pipeline::Cloud
            &&& f == Shader::PlumeFrag <==> p == Pipeline::Plume
            &&& f == Shader::TrailFrag <==> p == Pipeline::Trail
            &&& f == Shader::CompositeFrag <==> p == Pipeline::Composite
        }),
{
}

/// Each pass over the screen goes by its own rate of the settings: sky and
/// clouds by that of the sky. What another rate is does not matter to it. The
/// aircraft and the ribbons are shaded in full whatever the settings, and the
/// plume in blocks of two by two.
pub proof fn rates_come_from_the_settings(p: Pipeline, traced: bool, s: Settings)
    ensures
        ({
            let r = state_of(p, traced, Some(s)).rate;
            &&& p == Pipeline::Sky || p == Pipeline::Cloud ==> r == s.sky
            &&& p == Pipeline::Ground ==> r == s.ground
            &&& p == Pipeline::Composite ==> r == s.composite
            &&& record::pipeline_geometry(p) == Some(Geometry::Airframe) ==> r.width == 1 && r.height
                == 1
            &&& p == Pipeline::Trail ==> r.width == 1 && r.height == 1
            &&& p == Pipeline::Plume ==> r.width == 2 && r.height == 2
            &&& state_of(p, traced, None) == (PipelineState {
                rate: Rate { width: 1, height: 1 },
                ..state_of(p, traced, Some(s))
            })
        }),
{
}

/// Every sampled image is followed by its sampler, and no sampler stands
/// alone. Uniforms come first where there are any, and the structure last.
pub proof fn images_come_with_samplers(kind: SetKind, i: int)
    requires
        0 <= i < binding_list(kind).len(),
    ensures
        ({
            let b = binding_list(kind);
            &&& b[i] == Descriptor::Image ==> i + 1 < b.len() && b[i + 1] == Descriptor::Sampler
            &&& b[i] == Descriptor::Sampler ==> i > 0 && b[i - 1] == Descriptor::Image
            &&& b[i] == Descriptor::Uniform <==> i == 0 && kind == SetKind::Frame
            &&& b[i] == Descriptor::Structure <==> i == b.len() - 1 && kind == SetKind::Frame
        }),
{
    match kind {
        SetKind::Frame => {},
        SetKind::Effects => {},
        SetKind::Composite => {},
    }
}

/// Floats of an attribute that is made of floats.
pub open spec fn floats(f: Format) -> int {
    match f {
        Format::Float => 1,
        Format::Float2 => 2,
        Format::Float3 => 3,
        _ => 0,
    }
}

/// The first attribute of a vertex is its place in space. Ribbons have a
/// second one, the side, and a pair of texture coordinates behind two single
/// numbers; all else of the effects is single numbers.
pub proof fn places_come_first(g: Geometry, i: int)
    requires
        0 <= i < attribute_list(g).len(),
    ensures
        ({
            let f = attribute_list(g)[i].format;
            &&& i == 0 ==> floats(f) == 3
            &&& g == Geometry::Cone ==> floats(f) == if i == 0 {
                3int
            } else {
                1
            }
            &&& g == Geometry::Ribbons ==> floats(f) == if i <= 1 {
                3int
            } else if i == 4 {
                2
            } else {
                1
            }
            &&& floats(f) == 3 <==> i == 0 || g == Geometry::Ribbons && i == 1
            &&& floats(f) == 0 ==> g == Geometry::Airframe
            &&& f == Format::Int16x2 <==> g == Geometry::Airframe && i == 1
            &&& f == Format::Half2 <==> g == Geometry::Airframe && i == 2
            &&& f == Format::Uint16x2 <==> g == Geometry::Airframe && i == 4
            &&& g == Geometry::Airframe ==> attribute_list(g).len() == 5
            &&& g == Geometry::Cone ==> attribute_list(g).len() == 3
            &&& g == Geometry::Ribbons ==> attribute_list(g).len() == 8
        }),
{
    match g {
        Geometry::Airframe => {},
        Geometry::Cone => {},
        Geometry::Ribbons => {},
    }
}

} // verus!
