//! What each frame in flight owns: its slots, descriptors, buffers and
//! timestamps.
use crate::fx_gpu;
use crate::plane;
use crate::record;
use crate::swap::{query_base, GPU_STAMPS_PER_FRAME};
use vstd::prelude::*;

verus! {

/// Bytes of a buffer for the plume volume.
pub const CONE_BUFFER_BYTES: u64 = 4096;

/// Bytes of a buffer for the ribbons.
pub const RIBBON_BUFFER_BYTES: u64 = 262144;

/// One pass of one swapchain image.
#[derive(Clone, Copy, Debug, PartialEq, Eq, Structural)]
pub struct Slot {
    pub image: u32,
    /// Place of the pass among those of its image.
    pub render: u32,
    /// The pass is the one that is presented.
    pub presented: bool,
    /// First timestamp of the image.
    pub query_base: u32,
}

/// Slot `i`: images in order, and the passes of each in order. The last pass
/// of an image is presented.
pub open spec fn slot_at(burst: int, i: int) -> Slot {
    Slot {
        image: (i / burst) as u32,
        render: (i % burst) as u32,
        presented: i % burst == burst - 1,
        query_base: ((i / burst) * GPU_STAMPS_PER_FRAME) as u32,
    }
}

/// List the slots of all images.
pub fn slots(images: u32, burst: u32) -> (r: Vec<Slot>)
    requires
        burst > 0,
        images * burst <= u32::MAX,
        images * GPU_STAMPS_PER_FRAME <= u32::MAX,
    ensures
        r@ == Seq::new((images * burst) as nat, |i: int| slot_at(burst as int, i)),
{
    let mut out: Vec<Slot> = Vec::new();
    let mut image: u32 = 0;
    while image < images
        invariant
            image <= images,
            burst > 0,
            images * burst <= u32::MAX,
            images * GPU_STAMPS_PER_FRAME <= u32::MAX,
            out@ == Seq::new((image * burst) as nat, |i: int| slot_at(burst as int, i)),
        decreases images - image,
    {
        let base: u32 = query_base(image);
        let mut render: u32 = 0;
        while render < burst
            invariant
                render <= burst,
                image < images,
                burst > 0,
                base == image * GPU_STAMPS_PER_FRAME,
                out@ == Seq::new((image * burst + render) as nat, |i: int| slot_at(burst as int, i)),
            decreases burst - render,
        {
            let presented: bool = render == burst - 1;
            proof {
                slot_parts(image as int, render as int, burst as int);
            }
            out.push(Slot { image, render, presented, query_base: base });
            render += 1;
            assert(out@ =~= Seq::new(
                (image * burst + render) as nat,
                |i: int| slot_at(burst as int, i),
            ));
        }
        assert((image + 1) * burst == image * burst + burst) by (nonlinear_arith);
        image += 1;
    }
    out
}

proof fn slot_parts(image: int, render: int, burst: int)
    requires
        0 <= image,
        0 <= render < burst,
    ensures
        0 <= image * burst + render,
        (image * burst + render) / burst == image,
        (image * burst + render) % burst == render,
{
    assert(0 <= image * burst) by (nonlinear_arith)
        requires
            0 <= image,
            0 < burst,
    ;
    vstd::arithmetic::div_mod::lemma_fundamental_div_mod_converse(
        image * burst + render,
        burst,
        image,
        render,
    );
}

/// Each image has one presented pass and no other, and it is the image's last.
pub proof fn one_pass_is_presented(images: u32, burst: u32, image: int)
    requires
        burst > 0,
        images * burst <= u32::MAX,
        0 <= image < images,
    ensures
        forall|render: int|
            0 <= render < burst ==> {
                let s = #[trigger] slot_at(burst as int, image * burst + render);
                s.image == image && s.render == render && (s.presented <==> render == burst - 1)
            },
{
    assert forall|render: int| 0 <= render < burst implies {
        let s = #[trigger] slot_at(burst as int, image * burst + render);
        s.image == image && s.render == render && (s.presented <==> render == burst - 1)
    } by {
        slot_parts(image, render, burst as int);
    }
}

/// Queries reserved for the timestamps of all images.
pub fn query_count(images: u32) -> (r: u32)
    requires
        images * GPU_STAMPS_PER_FRAME <= u32::MAX,
    ensures
        r == images * GPU_STAMPS_PER_FRAME,
{
    images * GPU_STAMPS_PER_FRAME
}

/// What a recorded pass stamps lies within the timestamps of its image: no
/// image writes another's.
pub proof fn stamps_stay_with_their_image(images: u32, a: u32, b: u32, q: int)
    requires
        a < b < images,
        images * GPU_STAMPS_PER_FRAME <= u32::MAX,
        0 <= q < record::RECORDED_STAMPS,
    ensures
        a * GPU_STAMPS_PER_FRAME + q < b * GPU_STAMPS_PER_FRAME,
        b * GPU_STAMPS_PER_FRAME + q < images * GPU_STAMPS_PER_FRAME,
{
}

// ---------------------------------------------------------------------------
// Attachments
// ---------------------------------------------------------------------------

/// What an attachment is for.
#[derive(Clone, Copy, Debug, PartialEq, Eq, Structural)]
pub enum Attachment {
    /// Samples that are resolved into the scene.
    Samples,
    Depth,
    /// The linear scene.
    Scene,
}

/// An attachment of one swapchain image.
#[derive(Clone, Copy, Debug, PartialEq, Eq, Structural)]
pub struct Owned {
    pub image: u32,
    pub attachment: Attachment,
}

/// Attachment `i` in the order of creation: samples and depth image by image,
/// then the scenes.
pub open spec fn attachment_at(images: int, multisampled: bool, i: int) -> Owned {
    let per = if multisampled {
        2int
    } else {
        1
    };
    if i < per * images {
        Owned {
            image: (i / per) as u32,
            attachment: if multisampled && i % 2 == 0 {
                Attachment::Samples
            } else {
                Attachment::Depth
            },
        }
    } else {
        Owned { image: (i - per * images) as u32, attachment: Attachment::Scene }
    }
}

/// How many attachments there are.
pub open spec fn attachment_count(images: int, multisampled: bool) -> int {
    if multisampled {
        3 * images
    } else {
        2 * images
    }
}

/// List the attachments of all images. Each image has its own, so that frames
/// in flight share none.
pub fn attachments(images: u32, multisampled: bool) -> (r: Vec<Owned>)
    ensures
        r@ == Seq::new(
            attachment_count(images as int, multisampled) as nat,
            |i: int| attachment_at(images as int, multisampled, i),
        ),
{
    let mut out: Vec<Owned> = Vec::new();
    let ghost whole = Seq::new(
        attachment_count(images as int, multisampled) as nat,
        |i: int| attachment_at(images as int, multisampled, i),
    );
    let mut image: u32 = 0;
    while image < images
        invariant
            image <= images,
            whole == Seq::new(
                attachment_count(images as int, multisampled) as nat,
                |i: int| attachment_at(images as int, multisampled, i),
            ),
            out@ == whole.take(
                if multisampled {
                    2 * image
                } else {
                    image as int
                },
            ),
        decreases images - image,
    {
        if multisampled {
            out.push(Owned { image, attachment: Attachment::Samples });
            assert((2 * image) / 2 == image as int && (2 * image) % 2 == 0);
            assert((2 * image + 1) / 2 == image as int && (2 * image + 1) % 2 == 1);
        }
        out.push(Owned { image, attachment: Attachment::Depth });
        image += 1;
        assert(out@ =~= whole.take(
            if multisampled {
                2 * image
            } else {
                image as int
            },
        ));
    }
    let mut scene: u32 = 0;
    while scene < images
        invariant
            scene <= images,
            whole == Seq::new(
                attachment_count(images as int, multisampled) as nat,
                |i: int| attachment_at(images as int, multisampled, i),
            ),
            out@ == whole.take(
                scene + if multisampled {
                    2 * images
                } else {
                    images as int
                },
            ),
        decreases images - scene,
    {
        out.push(Owned { image: scene, attachment: Attachment::Scene });
        scene += 1;
        assert(out@ =~= whole.take(
            scene + if multisampled {
                2 * images
            } else {
                images as int
            },
        ));
    }
    assert(out@ =~= whole);
    out
}

/// No two attachments of one kind belong to the same image.
pub proof fn images_share_no_attachment(images: u32, multisampled: bool, i: int, j: int)
    requires
        0 <= i < j < attachment_count(images as int, multisampled),
    ensures
        attachment_at(images as int, multisampled, i) != attachment_at(
            images as int,
            multisampled,
            j,
        ),
        attachment_at(images as int, multisampled, i).image < images,
{
}

// ---------------------------------------------------------------------------
// Descriptors and buffers
// ---------------------------------------------------------------------------

/// Descriptors and sets of the slots.
#[derive(Clone, Copy, Debug, PartialEq, Eq, Structural)]
pub struct Pools {
    /// Sets of each kind: frame, effects, composite.
    pub sets: u32,
    /// For the frame sets.
    pub uniforms: u32,
    pub images: u32,
    pub samplers: u32,
    pub structures: u32,
    /// For the effect sets: both noise volumes and the curl field.
    pub fx_images: u32,
    pub fx_samplers: u32,
    /// For the composite sets: the linear scene.
    pub composite_images: u32,
    pub composite_samplers: u32,
}

/// Descriptors of `slots` slots.
pub open spec fn pools_for(slots: u32) -> Pools {
    Pools {
        sets: slots,
        uniforms: slots,
        images: slots,
        samplers: slots,
        structures: slots,
        fx_images: (slots * 3) as u32,
        fx_samplers: (slots * 3) as u32,
        composite_images: slots,
        composite_samplers: slots,
    }
}

/// Size the descriptor pools of `slots` slots.
pub fn pools(slots: u32) -> (r: Pools)
    requires
        slots * 3 <= u32::MAX,
    ensures
        r == pools_for(slots),
{
    Pools {
        sets: slots,
        uniforms: slots,
        images: slots,
        samplers: slots,
        structures: slots,
        fx_images: slots * 3,
        fx_samplers: slots * 3,
        composite_images: slots,
        composite_samplers: slots,
    }
}

/// Bytes of the instances of a slot's top-level structure. Without casters,
/// or without traced shadows, a slot has none.
pub fn instance_bytes(shadows: bool, casters: u32) -> (r: u64)
    ensures
        r == if shadows {
            casters * plane::RT_INSTANCE_BYTES
        } else {
            0
        },
{
    if shadows {
        assert(casters * plane::RT_INSTANCE_BYTES == casters * 64) by (nonlinear_arith);
        casters as u64 * 64
    } else {
        0
    }
}

/// The buffers of a slot have room for every vertex that its passes draw.
pub proof fn buffers_hold_their_vertices()
    ensures
        (2 * fx_gpu::CONE_SEGMENTS + 2) * fx_gpu::PLUME_VERT_BYTES <= CONE_BUFFER_BYTES,
        fx_gpu::TRAIL_EMITTERS * (fx_gpu::TRAIL_VERTS_PER_EMITTER * fx_gpu::TRAIL_VERT_BYTES)
            <= RIBBON_BUFFER_BYTES,
{
}

/// The passes of an image share its timestamps, and those of the next image
/// follow after room for eleven.
pub proof fn passes_share_the_timestamps_of_their_image(images: u32, burst: u32, i: int, j: int)
    requires
        burst > 0,
        images * burst <= u32::MAX,
        images * 11 <= u32::MAX,
        0 <= i <= j < images * burst,
    ensures
        ({
            let (a, b) = (slot_at(burst as int, i), slot_at(burst as int, j));
            &&& a.image == b.image ==> a.query_base == b.query_base
            &&& a.query_base + 11 * (b.image - a.image) == b.query_base
            &&& a.image <= b.image < images
            &&& a.image == b.image && a.render == b.render ==> i == j
            &&& a.image == b.image ==> b.render - a.render == j - i
            &&& i == 0 ==> a.image == 0 && a.render == 0 && a.query_base == 0
        }),
{
    let n = burst as int;
    slot_bounds(images as int, n, i);
    slot_bounds(images as int, n, j);
    vstd::arithmetic::div_mod::lemma_div_is_ordered(i, j, n);
    vstd::arithmetic::div_mod::lemma_fundamental_div_mod(i, n);
    vstd::arithmetic::div_mod::lemma_fundamental_div_mod(j, n);
}

proof fn slot_bounds(images: int, burst: int, i: int)
    requires
        0 < burst <= u32::MAX,
        0 <= images <= u32::MAX,
        0 <= i < images * burst,
    ensures
        0 <= i / burst < images,
        0 <= i % burst < burst,
{
    vstd::arithmetic::div_mod::lemma_fundamental_div_mod(i, burst);
    vstd::arithmetic::div_mod::lemma_mod_bound(i, burst);
    let (q, r) = (i / burst, i % burst);
    assert(0 <= q < images) by (nonlinear_arith)
        requires
            i == burst * q + r,
            0 <= r < burst,
            0 <= i < images * burst,
    ;
}

/// No image goes without: each has a depth attachment and a scene of its own,
/// and samples where there are several to a pixel, and only there.
pub proof fn every_image_has_its_attachments(images: u32, multisampled: bool, image: u32)
    requires
        image < images,
    ensures
        exists|i: int|
            0 <= i < attachment_count(images as int, multisampled) && #[trigger] attachment_at(
                images as int,
                multisampled,
                i,
            ) == (Owned { image, attachment: Attachment::Depth }),
        exists|i: int|
            0 <= i < attachment_count(images as int, multisampled) && #[trigger] attachment_at(
                images as int,
                multisampled,
                i,
            ) == (Owned { image, attachment: Attachment::Scene }),
        multisampled <==> exists|i: int|
            0 <= i < attachment_count(images as int, multisampled) && #[trigger] attachment_at(
                images as int,
                multisampled,
                i,
            ) == (Owned { image, attachment: Attachment::Samples }),
{
    let n = images as int;
    let k = image as int;
    if multisampled {
        assert((2 * k) / 2 == k && (2 * k + 1) / 2 == k);
        assert((2 * k) % 2 == 0 && (2 * k + 1) % 2 == 1);
        assert(attachment_at(n, true, 2 * k) == (Owned { image, attachment: Attachment::Samples }));
        assert(attachment_at(n, true, 2 * k + 1) == (Owned {
            image,
            attachment: Attachment::Depth,
        }));
        assert(attachment_at(n, true, 2 * n + k) == (Owned {
            image,
            attachment: Attachment::Scene,
        }));
    } else {
        assert(attachment_at(n, false, k) == (Owned { image, attachment: Attachment::Depth }));
        assert(attachment_at(n, false, n + k) == (Owned { image, attachment: Attachment::Scene }));
    }
}

/// Descriptors grow slot by slot: what two sets of slots need together is what
/// they need apart. One slot needs one set of each kind with one descriptor for
/// each thing it reads, of which the effects read three.
pub proof fn pools_grow_slot_by_slot(a: u32, b: u32)
    requires
        (a + b) * 3 <= u32::MAX,
    ensures
        ({
            let (p, q, r) = (pools_for(a), pools_for(b), pools_for((a + b) as u32));
            &&& r.sets == p.sets + q.sets
            &&& r.uniforms == p.uniforms + q.uniforms
            &&& r.images == p.images + q.images && r.samplers == p.samplers + q.samplers
            &&& r.structures == p.structures + q.structures
            &&& r.fx_images == p.fx_images + q.fx_images
            &&& r.fx_samplers == p.fx_samplers + q.fx_samplers
            &&& r.composite_images == p.composite_images + q.composite_images
            &&& r.composite_samplers == p.composite_samplers + q.composite_samplers
            &&& p.sets == a && p.uniforms == a && p.structures == a
            &&& p.images == a && p.samplers == a
            &&& p.fx_images == p.images + p.images + p.images && p.fx_samplers == p.fx_images
            &&& p.composite_images == p.sets && p.composite_samplers == p.composite_images
        }),
{
}

} // verus!
