use explora::frames::{
    attachments, instance_bytes, pools, query_count, slots, Attachment, Owned, Slot,
    CONE_BUFFER_BYTES, RIBBON_BUFFER_BYTES,
};
use explora::record::{
    record_pass, Geometry, PassConfig, Pipeline, Sets, StampAt, Step, Target, RECORDED_STAMPS,
};

fn config(measured: bool, shadows: bool) -> PassConfig {
    PassConfig {
        measured,
        shadows,
        opaque_count: 900,
        glass_count: 60,
        trail_count: 7650,
        query_base: 22,
    }
}

#[test]
fn a_void_pass_draws_the_opaque_aircraft_alone() {
    assert_eq!(
        record_pass(&config(false, true)),
        vec![
            Step::Begin(Target::Void),
            Step::BindGeometry(Geometry::Airframe),
            Step::BindPipeline(Pipeline::Void),
            Step::BindSets(Sets::Frame),
            Step::DrawIndexed { count: 900, first: 0 },
            Step::End,
        ]
    );
}

#[test]
fn a_presented_pass_stamps_in_order() {
    let steps = record_pass(&config(true, false));
    assert_eq!(steps[0], Step::ResetQueries { first: 22, count: RECORDED_STAMPS });
    let stamps: Vec<u32> = steps
        .iter()
        .filter_map(|s| if let Step::Stamp { query, .. } = s { Some(*query) } else { None })
        .collect();
    assert_eq!(stamps, (22..30).collect::<Vec<u32>>());
    assert_eq!(steps[steps.len() - 2], Step::OutputToPresent);
    assert_eq!(steps[steps.len() - 1], Step::Stamp { query: 29, at: StampAt::Bottom });
    assert!(!steps.contains(&Step::BuildShadows));
}

#[test]
fn a_presented_pass_draws_everything_in_order() {
    let steps = record_pass(&config(true, true));
    assert_eq!(steps[1], Step::BuildShadows);
    assert_eq!(steps[2], Step::PrepareScene);
    let pipelines: Vec<Pipeline> = steps
        .iter()
        .filter_map(|s| if let Step::BindPipeline(p) = s { Some(*p) } else { None })
        .collect();
    assert_eq!(
        pipelines,
        vec![
            Pipeline::Opaque,
            Pipeline::Sky,
            Pipeline::Ground,
            Pipeline::Cloud,
            Pipeline::Plume,
            Pipeline::Trail,
            Pipeline::Glass,
            Pipeline::Composite,
        ]
    );
    let draws: Vec<Step> = steps
        .iter()
        .copied()
        .filter(|s| matches!(s, Step::DrawIndexed { .. } | Step::Draw { .. }))
        .collect();
    assert_eq!(
        draws,
        vec![
            Step::DrawIndexed { count: 900, first: 0 },
            Step::Draw { vertices: 6 },
            Step::Draw { vertices: 6 },
            Step::Draw { vertices: 6 },
            Step::DrawIndexed { count: 384, first: 0 },
            Step::DrawIndexed { count: 7650, first: 0 },
            Step::DrawIndexed { count: 60, first: 900 },
            Step::Draw { vertices: 6 },
        ]
    );
    // Draws stand inside a rendering, and renderings do not nest.
    let mut open = false;
    for s in steps {
        match s {
            Step::Begin(_) => {
                assert!(!open);
                open = true;
            }
            Step::End => {
                assert!(open);
                open = false;
            }
            Step::Draw { .. } | Step::DrawIndexed { .. } => assert!(open),
            Step::BuildShadows | Step::PrepareScene | Step::SceneToOutput => assert!(!open),
            _ => {}
        }
    }
    assert!(!open);
}

#[test]
fn the_last_pass_of_each_image_is_presented() {
    let slot = |image, render, presented, query_base| Slot { image, render, presented, query_base };
    assert_eq!(
        slots(2, 2),
        vec![slot(0, 0, false, 0), slot(0, 1, true, 0), slot(1, 0, false, 11), slot(1, 1, true, 11)]
    );
    assert_eq!(slots(0, 3), vec![]);
    assert_eq!(query_count(3), 33);
    let all = slots(8, 1);
    assert!(all.iter().all(|s| s.presented && s.query_base + RECORDED_STAMPS <= query_count(8)));
}

#[test]
fn each_image_has_its_own_attachments() {
    let owned = |image, attachment| Owned { image, attachment };
    assert_eq!(
        attachments(2, false),
        vec![
            owned(0, Attachment::Depth),
            owned(1, Attachment::Depth),
            owned(0, Attachment::Scene),
            owned(1, Attachment::Scene),
        ]
    );
    assert_eq!(
        attachments(2, true),
        vec![
            owned(0, Attachment::Samples),
            owned(0, Attachment::Depth),
            owned(1, Attachment::Samples),
            owned(1, Attachment::Depth),
            owned(0, Attachment::Scene),
            owned(1, Attachment::Scene),
        ]
    );
}

#[test]
fn pools_and_buffers_have_their_sizes() {
    let p = pools(8);
    assert_eq!((p.sets, p.uniforms, p.images, p.samplers, p.structures), (8, 8, 8, 8, 8));
    assert_eq!((p.fx_images, p.fx_samplers), (24, 24));
    assert_eq!((p.composite_images, p.composite_samplers), (8, 8));
    assert_eq!(instance_bytes(true, 20), 1280);
    assert_eq!(instance_bytes(false, 20), 0);
    assert!(66 * 20 <= CONE_BUFFER_BYTES);
    assert!(2560 * 52 <= RIBBON_BUFFER_BYTES);
}
