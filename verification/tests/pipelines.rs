use explora::ledger::{creation, release, Resource, Thing};
use explora::pipelines::{
    attributes, bindings, pipeline_state, stride, Attribute, Blend, Depth, Descriptor, Format,
    PipelineState, SetKind, Shader,
};
use explora::quality::{Quality, Rate};
use explora::record::{Geometry, Pipeline};
use std::collections::HashSet;

const FULL: Rate = Rate { width: 1, height: 1 };

fn bytes(f: Format) -> u32 {
    match f {
        Format::Float => 4,
        Format::Float2 => 8,
        Format::Float3 => 12,
        Format::Half2 | Format::Int16x2 | Format::Uint16x2 => 4,
    }
}

#[test]
fn attributes_tile_their_vertices() {
    for (g, size, count) in
        [(Geometry::Airframe, 28, 5), (Geometry::Cone, 20, 3), (Geometry::Ribbons, 52, 8)]
    {
        let list = attributes(g);
        assert_eq!(stride(g), size);
        assert_eq!(list.len(), count);
        let mut end = 0;
        for Attribute { offset, format } in list {
            assert_eq!(offset, end);
            end += bytes(format);
        }
        assert_eq!(end, size);
    }
    assert_eq!(attributes(Geometry::Airframe)[4], Attribute { offset: 24, format: Format::Uint16x2 });
}

#[test]
fn sets_have_their_bindings() {
    use_of(SetKind::Frame, [1, 2, 2, 1]);
    use_of(SetKind::Effects, [0, 3, 3, 0]);
    use_of(SetKind::Composite, [0, 1, 1, 0]);
    assert_eq!(bindings(SetKind::Frame)[0], Descriptor::Uniform);
    assert_eq!(bindings(SetKind::Frame)[5], Descriptor::Structure);
}

fn use_of(kind: SetKind, expected: [usize; 4]) {
    let list = bindings(kind);
    let count = |d: Descriptor| list.iter().filter(|&&x| x == d).count();
    assert_eq!(
        [
            count(Descriptor::Uniform),
            count(Descriptor::Image),
            count(Descriptor::Sampler),
            count(Descriptor::Structure),
        ],
        expected
    );
}

#[test]
fn pipelines_have_their_state() {
    let fast = Some(Quality::Performance.settings());
    assert_eq!(
        pipeline_state(Pipeline::Opaque, true, fast),
        PipelineState {
            vertex: Shader::PlaneVert,
            fragment: Shader::PlaneFragTraced,
            depth: Depth::Tested { or_equal: false, written: true },
            blend: Blend::Replace,
            cull_front: false,
            rate: FULL,
        }
    );
    let glass = pipeline_state(Pipeline::Glass, false, fast);
    assert_eq!(glass.fragment, Shader::PlaneFrag);
    assert_eq!(glass.depth, Depth::Tested { or_equal: false, written: false });
    let ground = pipeline_state(Pipeline::Ground, true, fast);
    assert_eq!((ground.fragment, ground.rate), (Shader::GroundFragTraced, Rate { width: 4, height: 2 }));
    assert_eq!(pipeline_state(Pipeline::Ground, false, fast).fragment, Shader::GroundFrag);
    assert_eq!(pipeline_state(Pipeline::Sky, false, fast).rate, Rate { width: 4, height: 4 });
    assert_eq!(pipeline_state(Pipeline::Cloud, false, fast).rate, Rate { width: 4, height: 4 });
    assert_eq!(pipeline_state(Pipeline::Plume, false, fast).rate, Rate { width: 2, height: 2 });
    assert_eq!(pipeline_state(Pipeline::Composite, false, fast).rate, Rate { width: 2, height: 2 });
    assert_eq!(pipeline_state(Pipeline::Sky, false, None).rate, FULL);
    assert_eq!(pipeline_state(Pipeline::Plume, false, None).rate, FULL);
    let fine = Some(Quality::Cinematic.settings());
    assert_eq!(pipeline_state(Pipeline::Sky, false, fine).rate, FULL);
    assert_eq!(pipeline_state(Pipeline::Composite, false, fine).rate, FULL);
    assert_eq!(pipeline_state(Pipeline::Cloud, false, fast).blend, Blend::Premultiplied);
    assert!(pipeline_state(Pipeline::Plume, false, fast).cull_front);
    assert_eq!(pipeline_state(Pipeline::Trail, false, fast).blend, Blend::Alpha);
    assert_eq!(pipeline_state(Pipeline::Void, false, fast).blend, Blend::Absent);
    assert_eq!(pipeline_state(Pipeline::Composite, false, fast).depth, Depth::Ignored);
}

#[test]
fn frames_release_what_they_create() {
    for shadows in [false, true] {
        let made = creation(3, shadows);
        let freed = release(3, shadows);
        assert_eq!(made.len(), 2 + 3 * if shadows { 17 } else { 10 });
        assert_eq!(made.len(), freed.len());
        let set: HashSet<Resource> = made.iter().copied().collect();
        assert_eq!(set.len(), made.len());
        assert_eq!(set, freed.iter().copied().collect());
    }
    assert_eq!(
        creation(1, false)[..3],
        [
            Resource::FramePool,
            Resource::Buffer(Thing::Uniforms, 0),
            Resource::Memory(Thing::Uniforms, 0),
        ]
    );
    assert_eq!(release(2, false)[..2], [
        Resource::Memory(Thing::ConeIndices, 0),
        Resource::Memory(Thing::ConeIndices, 1),
    ]);
    assert_eq!(*release(1, true).last().unwrap(), Resource::Buffer(Thing::Instances, 0));
    assert_eq!(creation(0, true), vec![Resource::FramePool, Resource::EffectPool]);
}
