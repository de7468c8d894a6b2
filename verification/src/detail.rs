//! Photo detail textures for terrain materials.
//!
//! Four tilable sets of a diffuse and a normal map are decoded at start and
//! uploaded once with full mip chains.
use crate::gfx::Extent;
use crate::jpeg;
use vstd::prelude::*;
use vstd::string::*;

verus! {

/// Materials: meadow, rock, snow, scree.
pub const DETAIL_COUNT: usize = 4;

/// Diffuse binding per material.
pub const DETAIL_DIFFUSE_BINDINGS: [u32; 4] = [12, 13, 14, 15];

/// Normal binding per material, in the same order.
pub const DETAIL_NORMAL_BINDINGS: [u32; 4] = [16, 17, 18, 19];

/// Shared repeat/anisotropic sampler binding.
pub const DETAIL_SAMPLER_BINDING: u32 = 20;

/// Side of every detail texture.
pub const DETAIL_SIDE: u32 = 2048;

// ---------------------------------------------------------------------------
// Decoding
// ---------------------------------------------------------------------------

/// Error of the image decoder.
#[verifier::external_type_specification]
#[verifier::external_body]
pub struct ExImageError(image::ImageError);

/// A decoded picture: four bytes per pixel, red, green, blue and alpha.
pub struct Picture {
    pub pixels: Vec<u8>,
    pub width: u32,
    pub height: u32,
}

/// Pixels, width and height of a picture.
pub open spec fn picture_view(p: Picture) -> (Seq<u8>, u32, u32) {
    (p.pixels@, p.width, p.height)
}

/// What the JPEG decoder makes of a file: pixels in RGBA, width and height.
/// `None` where it rejects the file.
pub uninterp spec fn jpeg_rgba(bytes: Seq<u8>) -> Option<(Seq<u8>, u32, u32)>;

/// `image::load_from_memory_with_format` for JPEG, then
/// `DynamicImage::to_rgba8`: integer arithmetic on the bytes of the file
/// alone. The raw buffer holds four bytes for each pixel.
///
/// For a sequential frame the decoder multiplies the sum of the brightness
/// differences by a quantiser, and adds a little, without a test: a build with
/// overflow checks panics where that leaves 32 bits. In a plain file it cannot.
/// The files that are left out are not all ones on which it panics: those with
/// several sequential scans, wide quantisers, four components or unusual
/// sampling are among them.
#[verifier::external_body]
fn load_jpeg(bytes: &[u8]) -> (r: Result<Picture, image::ImageError>)
    requires
        jpeg::plain(bytes@),
    ensures
        match r {
            Ok(p) => {
                &&& jpeg_rgba(bytes@) == Some((p.pixels@, p.width, p.height))
                &&& p.pixels@.len() == 4 * (p.width * p.height)
            },
            Err(_) => jpeg_rgba(bytes@) is None,
        },
{
    let img = image::load_from_memory_with_format(bytes, image::ImageFormat::Jpeg)?;
    let rgba = img.to_rgba8();
    let width: u32 = rgba.width();
    let height: u32 = rgba.height();
    Ok(Picture { pixels: rgba.into_raw(), width, height })
}

/// Why a detail texture cannot be used.
#[derive(Clone, Copy, Debug, PartialEq, Eq, Structural)]
pub enum DetailError {
    /// The file is no plain JPEG picture.
    Decode,
    /// The picture has another size.
    Size(Extent),
}

/// What a file holds: the picture of a plain file, where the decoder takes it.
pub open spec fn jpeg_picture(bytes: Seq<u8>) -> Option<(Seq<u8>, u32, u32)> {
    if jpeg::plain(bytes) {
        jpeg_rgba(bytes)
    } else {
        None
    }
}

/// Decode a JPEG file to RGBA. A file that is not plain is refused.
pub fn decode_jpeg(bytes: &[u8]) -> (r: Result<Picture, DetailError>)
    ensures
        match r {
            Ok(p) => {
                &&& jpeg_picture(bytes@) == Some(picture_view(p))
                &&& p.pixels.len() == 4 * (p.width * p.height)
            },
            Err(e) => jpeg_picture(bytes@) is None && e == DetailError::Decode,
        },
{
    if !jpeg::is_plain(bytes) {
        return Err(DetailError::Decode);
    }
    match load_jpeg(bytes) {
        Ok(p) => Ok(p),
        Err(_) => Err(DetailError::Decode),
    }
}

/// A picture of the size that every detail texture has.
pub fn sized(p: Picture) -> (r: Result<Picture, DetailError>)
    ensures
        match r {
            Ok(q) => q == p && p.width == DETAIL_SIDE && p.height == DETAIL_SIDE,
            Err(e) => {
                &&& p.width != DETAIL_SIDE || p.height != DETAIL_SIDE
                &&& e == DetailError::Size(Extent { width: p.width, height: p.height })
            },
        },
{
    if p.width == DETAIL_SIDE && p.height == DETAIL_SIDE {
        Ok(p)
    } else {
        Err(DetailError::Size(Extent { width: p.width, height: p.height }))
    }
}

/// Decode one detail texture and check its size.
pub fn load_detail(bytes: &[u8]) -> (r: Result<Picture, DetailError>)
    ensures
        match (jpeg_picture(bytes@), r) {
            (None, Err(e)) => e == DetailError::Decode,
            (Some((pixels, width, height)), Ok(p)) => {
                &&& picture_view(p) == (pixels, width, height)
                &&& width == DETAIL_SIDE && height == DETAIL_SIDE
                &&& p.pixels.len() == 4 * (DETAIL_SIDE * DETAIL_SIDE)
            },
            (Some((pixels, width, height)), Err(e)) => {
                &&& width != DETAIL_SIDE || height != DETAIL_SIDE
                &&& e == DetailError::Size(Extent { width, height })
            },
            (None, Ok(_)) => false,
        },
{
    match decode_jpeg(bytes) {
        Ok(p) => sized(p),
        Err(e) => Err(e),
    }
}

/// Whether texture `i` holds colours, which are stored in sRGB. The diffuse
/// maps come first, then the normal maps.
pub fn is_diffuse(i: usize) -> (r: bool)
    requires
        i < 2 * DETAIL_COUNT,
    ensures
        r == (i < DETAIL_COUNT),
{
    i < DETAIL_COUNT
}

// ---------------------------------------------------------------------------
// Mip chain
// ---------------------------------------------------------------------------

/// Levels of a mip chain whose longest side is `side`: one for each halving
/// until one is reached.
pub open spec fn levels(side: nat) -> nat
    decreases side,
{
    if side <= 1 {
        1
    } else {
        1 + levels(side / 2)
    }
}

/// The longer side of an image.
pub open spec fn longest(e: Extent) -> u32 {
    if e.width > e.height {
        e.width
    } else {
        e.height
    }
}

/// Half of a side, at least one.
pub open spec fn half(n: u32) -> u32 {
    if n / 2 > 1 {
        n / 2
    } else {
        1
    }
}

/// Size of a mip level.
pub open spec fn mip_extent(e: Extent, level: nat) -> Extent
    decreases level,
{
    if level == 0 {
        e
    } else {
        let above = mip_extent(e, (level - 1) as nat);
        Extent { width: half(above.width), height: half(above.height) }
    }
}

/// A side below `2^k` is halved fewer than `k` times.
proof fn levels_bound(side: nat, k: nat)
    requires
        k > 0,
        side < vstd::arithmetic::power2::pow2(k),
    ensures
        1 <= levels(side) <= k,
    decreases k,
{
    if side > 1 {
        vstd::arithmetic::power2::lemma2_to64();
        if k == 1 {
            assert(vstd::arithmetic::power2::pow2(1) == 2);
        } else {
            vstd::arithmetic::power2::lemma_pow2_unfold(k);
            levels_bound(side / 2, (k - 1) as nat);
        }
    }
}

/// Levels of the mip chain of an image.
pub fn mip_levels(e: Extent) -> (r: u32)
    requires
        e.width > 0,
        e.height > 0,
    ensures
        r == levels(longest(e) as nat),
        1 <= r <= 32,
{
    let mut side: u32 = if e.width > e.height {
        e.width
    } else {
        e.height
    };
    let mut r: u32 = 1;
    proof {
        vstd::arithmetic::power2::lemma2_to64();
        levels_bound(longest(e) as nat, 32);
    }
    while side > 1
        invariant
            r >= 1,
            side >= 1,
            (r - 1) + levels(side as nat) == levels(longest(e) as nat),
            levels(longest(e) as nat) <= 32,
        decreases side,
    {
        side = side / 2;
        r = r + 1;
    }
    r
}

/// Sizes of all levels of a mip chain, the full size first.
pub fn mip_extents(e: Extent) -> (r: Vec<Extent>)
    requires
        e.width > 0,
        e.height > 0,
    ensures
        r.len() == levels(longest(e) as nat),
        forall|k: int| 0 <= k < r.len() ==> #[trigger] r[k] == mip_extent(e, k as nat),
{
    let n: u32 = mip_levels(e);
    let mut out: Vec<Extent> = Vec::new();
    let mut at: Extent = e;
    let mut k: u32 = 0;
    while k < n
        invariant
            k <= n,
            out.len() == k,
            at == mip_extent(e, k as nat),
            forall|j: int| 0 <= j < k ==> #[trigger] out[j] == mip_extent(e, j as nat),
        decreases n - k,
    {
        out.push(at);
        let width: u32 = if at.width / 2 > 1 {
            at.width / 2
        } else {
            1
        };
        let height: u32 = if at.height / 2 > 1 {
            at.height / 2
        } else {
            1
        };
        at = Extent { width, height };
        k += 1;
    }
    out
}

/// A side after `k` halvings.
spec fn halved(n: u32, k: nat) -> u32
    decreases k,
{
    if k == 0 {
        n
    } else {
        half(halved(n, (k - 1) as nat))
    }
}

proof fn halved_from_half(n: u32, k: nat)
    ensures
        halved(n, k + 1) == halved(half(n), k),
    decreases k,
{
    reveal_with_fuel(halved, 2);
    if k > 0 {
        halved_from_half(n, (k - 1) as nat);
    }
}

proof fn mip_sides(e: Extent, k: nat)
    ensures
        mip_extent(e, k).width == halved(e.width, k),
        mip_extent(e, k).height == halved(e.height, k),
    decreases k,
{
    if k > 0 {
        mip_sides(e, (k - 1) as nat);
    }
}

proof fn halved_reaches_one(n: u32, side: nat)
    requires
        1 <= n <= side,
    ensures
        halved(n, (levels(side) - 1) as nat) == 1,
    decreases side,
{
    if side > 1 {
        let k = (levels(side / 2) - 1) as nat;
        assert(levels(side) - 1 == k + 1) by {
            reveal_with_fuel(levels, 2);
        }
        halved_from_half(n, k);
        halved_reaches_one(half(n), side / 2);
    }
}

/// A mip chain ends with a single pixel.
pub proof fn mip_chain_ends_in_one_pixel(e: Extent)
    requires
        e.width > 0,
        e.height > 0,
    ensures
        mip_extent(e, (levels(longest(e) as nat) - 1) as nat) == (Extent { width: 1, height: 1 }),
{
    let k = (levels(longest(e) as nat) - 1) as nat;
    mip_sides(e, k);
    halved_reaches_one(e.width, longest(e) as nat);
    halved_reaches_one(e.height, longest(e) as nat);
}

// ---------------------------------------------------------------------------
// Upload
// ---------------------------------------------------------------------------

/// Layout of one mip level.
#[derive(Clone, Copy, Debug, PartialEq, Eq, Structural)]
pub enum Layout {
    Undefined,
    TransferDst,
    TransferSrc,
    ShaderRead,
}

/// One command of an upload.
#[derive(Clone, Copy, Debug, PartialEq, Eq, Structural)]
pub enum UploadStep {
    /// Change the layout of `count` levels from `first` on.
    Barrier { from: Layout, to: Layout, first: u32, count: u32 },
    /// Copy the staged pixels to level zero.
    Copy,
    /// Shrink level `level - 1` to `level`.
    Blit { level: u32, source: Extent, target: Extent },
}

/// Commands that fill level `m` from the level above, and hand that one on to
/// the shaders.
pub open spec fn level_steps(e: Extent, m: int) -> Seq<UploadStep> {
    seq![
        UploadStep::Barrier {
            from: Layout::TransferDst,
            to: Layout::TransferSrc,
            first: (m - 1) as u32,
            count: 1,
        },
        UploadStep::Blit {
            level: m as u32,
            source: mip_extent(e, (m - 1) as nat),
            target: mip_extent(e, m as nat),
        },
        UploadStep::Barrier {
            from: Layout::TransferSrc,
            to: Layout::ShaderRead,
            first: (m - 1) as u32,
            count: 1,
        },
    ]
}

/// Commands up to and with level `m`.
pub open spec fn steps_to(e: Extent, mips: int, m: nat) -> Seq<UploadStep>
    decreases m,
{
    if m == 0 {
        seq![
            UploadStep::Barrier {
                from: Layout::Undefined,
                to: Layout::TransferDst,
                first: 0,
                count: mips as u32,
            },
            UploadStep::Copy,
        ]
    } else {
        steps_to(e, mips, (m - 1) as nat) + level_steps(e, m as int)
    }
}

/// Commands that upload an image with its mip chain.
pub open spec fn upload_plan(e: Extent) -> Seq<UploadStep> {
    let mips = levels(longest(e) as nat) as int;
    steps_to(e, mips, (mips - 1) as nat).push(
        UploadStep::Barrier {
            from: Layout::TransferDst,
            to: Layout::ShaderRead,
            first: (mips - 1) as u32,
            count: 1,
        },
    )
}

/// A command is legal where the levels have these layouts.
pub open spec fn step_legal(layouts: Seq<Layout>, s: UploadStep) -> bool {
    match s {
        UploadStep::Barrier { from, to, first, count } => {
            &&& first + count <= layouts.len()
            &&& forall|i: int| first <= i < first + count ==> #[trigger] layouts[i] == from
        },
        UploadStep::Copy => layouts.len() > 0 && layouts[0] == Layout::TransferDst,
        UploadStep::Blit { level, source, target } => {
            &&& 0 < level < layouts.len()
            &&& layouts[level - 1] == Layout::TransferSrc
            &&& layouts[level as int] == Layout::TransferDst
        },
    }
}

/// Layouts of the levels after a command.
pub open spec fn step_layouts(layouts: Seq<Layout>, s: UploadStep) -> Seq<Layout> {
    match s {
        UploadStep::Barrier { from, to, first, count } => Seq::new(
            layouts.len(),
            |i: int|
                if first <= i < first + count {
                    to
                } else {
                    layouts[i]
                },
        ),
        _ => layouts,
    }
}

/// Layouts of the levels after a list of commands, `None` where one of them
/// was illegal.
pub open spec fn run(layouts: Seq<Layout>, steps: Seq<UploadStep>) -> Option<Seq<Layout>>
    decreases steps.len(),
{
    if steps.len() == 0 {
        Some(layouts)
    } else {
        match run(layouts, steps.drop_last()) {
            Some(before) => if step_legal(before, steps.last()) {
                Some(step_layouts(before, steps.last()))
            } else {
                None
            },
            None => None,
        }
    }
}

proof fn run_push(layouts: Seq<Layout>, steps: Seq<UploadStep>, s: UploadStep)
    ensures
        run(layouts, steps.push(s)) == (match run(layouts, steps) {
            Some(before) => if step_legal(before, s) {
                Some(step_layouts(before, s))
            } else {
                None
            },
            None => None,
        }),
{
    assert(steps.push(s).drop_last() =~= steps);
}

/// Layouts once level `m` has been filled.
spec fn layouts_at(mips: int, m: int) -> Seq<Layout> {
    Seq::new(
        mips as nat,
        |i: int|
            if i < m {
                Layout::ShaderRead
            } else {
                Layout::TransferDst
            },
    )
}

proof fn run_to(e: Extent, mips: int, m: nat)
    requires
        0 <= m < mips <= u32::MAX,
    ensures
        run(Seq::new(mips as nat, |i: int| Layout::Undefined), steps_to(e, mips, m)) == Some(
            layouts_at(mips, m as int),
        ),
    decreases m,
{
    let start = Seq::new(mips as nat, |i: int| Layout::Undefined);
    if m == 0 {
        let empty = Seq::<UploadStep>::empty();
        let first = steps_to(e, mips, 0)[0];
        let second = steps_to(e, mips, 0)[1];
        run_push(start, empty, first);
        run_push(start, empty.push(first), second);
        assert(steps_to(e, mips, 0) =~= empty.push(first).push(second));
        assert(step_layouts(start, first) =~= layouts_at(mips, 0));
    } else {
        let below = (m - 1) as nat;
        run_to(e, mips, below);
        let before = steps_to(e, mips, below);
        let more = level_steps(e, m as int);
        assert(steps_to(e, mips, m) =~= before.push(more[0]).push(more[1]).push(more[2]));
        run_push(start, before, more[0]);
        run_push(start, before.push(more[0]), more[1]);
        run_push(start, before.push(more[0]).push(more[1]), more[2]);
        let at = layouts_at(mips, below as int);
        let read = step_layouts(at, more[0]);
        assert(read[m - 1] == Layout::TransferSrc && read[m as int] == Layout::TransferDst);
        assert(step_layouts(read, more[2]) =~= layouts_at(mips, m as int));
    }
}

/// An upload is legal from the first command to the last, and leaves every
/// level of the mip chain to the shaders.
pub proof fn upload_leaves_all_levels_readable(e: Extent)
    requires
        e.width > 0,
        e.height > 0,
    ensures
        ({
            let mips = levels(longest(e) as nat);
            run(Seq::new(mips, |i: int| Layout::Undefined), upload_plan(e)) == Some(
                Seq::new(mips, |i: int| Layout::ShaderRead),
            )
        }),
{
    let mips = levels(longest(e) as nat) as int;
    vstd::arithmetic::power2::lemma2_to64();
    levels_bound(longest(e) as nat, 32);
    let start = Seq::new(mips as nat, |i: int| Layout::Undefined);
    run_to(e, mips, (mips - 1) as nat);
    let before = steps_to(e, mips, (mips - 1) as nat);
    let last = upload_plan(e).last();
    run_push(start, before, last);
    assert(step_layouts(layouts_at(mips, mips - 1), last) =~= Seq::new(
        mips as nat,
        |i: int| Layout::ShaderRead,
    ));
}

/// Commands that upload an image with its mip chain: each level is made from
/// the one above, which is then handed on to the shaders.
pub fn plan_upload(e: Extent) -> (r: Vec<UploadStep>)
    requires
        e.width > 0,
        e.height > 0,
    ensures
        r@ == upload_plan(e),
{
    let sizes: Vec<Extent> = mip_extents(e);
    proof {
        vstd::arithmetic::power2::lemma2_to64();
        levels_bound(longest(e) as nat, 32);
    }
    let mips: u32 = sizes.len() as u32;
    let mut out: Vec<UploadStep> = Vec::new();
    out.push(
        UploadStep::Barrier {
            from: Layout::Undefined,
            to: Layout::TransferDst,
            first: 0,
            count: mips,
        },
    );
    out.push(UploadStep::Copy);
    assert(out@ =~= steps_to(e, mips as int, 0));
    let mut m: u32 = 1;
    while m < mips
        invariant
            mips == sizes.len(),
            1 <= m <= mips <= 32,
            forall|k: int| 0 <= k < sizes.len() ==> #[trigger] sizes[k] == mip_extent(e, k as nat),
            out@ == steps_to(e, mips as int, (m - 1) as nat),
        decreases mips - m,
    {
        let ghost before = out@;
        out.push(
            UploadStep::Barrier {
                from: Layout::TransferDst,
                to: Layout::TransferSrc,
                first: m - 1,
                count: 1,
            },
        );
        out.push(
            UploadStep::Blit {
                level: m,
                source: sizes[m as usize - 1],
                target: sizes[m as usize],
            },
        );
        out.push(
            UploadStep::Barrier {
                from: Layout::TransferSrc,
                to: Layout::ShaderRead,
                first: m - 1,
                count: 1,
            },
        );
        assert(out@ =~= before + level_steps(e, m as int));
        m += 1;
    }
    out.push(
        UploadStep::Barrier {
            from: Layout::TransferDst,
            to: Layout::ShaderRead,
            first: mips - 1,
            count: 1,
        },
    );
    out
}

/// The number of levels is one more than the binary logarithm of a side.
pub proof fn levels_halve_to_one(side: nat)
    requires
        side > 0,
    ensures
        levels(side) > 0,
        vstd::arithmetic::power2::pow2((levels(side) - 1) as nat) <= side,
        side < vstd::arithmetic::power2::pow2(levels(side)),
    decreases side,
{
    vstd::arithmetic::power2::lemma2_to64();
    if side > 1 {
        levels_halve_to_one(side / 2);
        let k = levels(side / 2);
        vstd::arithmetic::power2::lemma_pow2_unfold(k);
        vstd::arithmetic::power2::lemma_pow2_unfold(k + 1);
    }
}

/// Each side of a level is the side of the image divided by two for every
/// level, rounded down, but never less than one.
pub proof fn levels_shrink_by_two(e: Extent, k: nat)
    requires
        e.width > 0,
        e.height > 0,
    ensures
        ({
            let d = vstd::arithmetic::power2::pow2(k);
            let (w, h) = (e.width as nat / d, e.height as nat / d);
            &&& mip_extent(e, k).width == if w > 1 {
                w
            } else {
                1
            }
            &&& mip_extent(e, k).height == if h > 1 {
                h
            } else {
                1
            }
        }),
    decreases k,
{
    vstd::arithmetic::power2::lemma2_to64();
    if k > 0 {
        let j = (k - 1) as nat;
        levels_shrink_by_two(e, j);
        vstd::arithmetic::power2::lemma_pow2_unfold(k);
        vstd::arithmetic::power2::lemma_pow2_pos(j);
        let d = vstd::arithmetic::power2::pow2(j) as int;
        vstd::arithmetic::div_mod::lemma_div_denominator(e.width as int, d, 2);
        vstd::arithmetic::div_mod::lemma_div_denominator(e.height as int, d, 2);
        assert(d * 2 == vstd::arithmetic::power2::pow2(k));
    }
}

/// Whether each level holds the picture after a list of commands: the copy
/// brings it to level zero, and a blit carries it on from the level above where
/// that level is read and filled as a whole.
pub open spec fn holding(e: Extent, mips: nat, steps: Seq<UploadStep>) -> Seq<bool>
    decreases steps.len(),
{
    if steps.len() == 0 {
        Seq::new(mips, |i: int| false)
    } else {
        let before = holding(e, mips, steps.drop_last());
        match steps.last() {
            UploadStep::Copy => before.update(0, true),
            UploadStep::Blit { level, source, target } => before.update(
                level as int,
                before[level - 1] && source == mip_extent(e, (level - 1) as nat) && target
                    == mip_extent(e, level as nat),
            ),
            UploadStep::Barrier { .. } => before,
        }
    }
}

proof fn holding_push(e: Extent, mips: nat, steps: Seq<UploadStep>, s: UploadStep)
    ensures
        holding(e, mips, steps.push(s)) == ({
            let before = holding(e, mips, steps);
            match s {
                UploadStep::Copy => before.update(0, true),
                UploadStep::Blit { level, source, target } => before.update(
                    level as int,
                    before[level - 1] && source == mip_extent(e, (level - 1) as nat) && target
                        == mip_extent(e, level as nat),
                ),
                UploadStep::Barrier { .. } => before,
            }
        }),
{
    assert(steps.push(s).drop_last() =~= steps);
}

proof fn holding_to(e: Extent, mips: nat, m: nat)
    requires
        m < mips <= u32::MAX,
    ensures
        holding(e, mips, steps_to(e, mips as int, m)) == Seq::new(mips, |i: int| i <= m),
    decreases m,
{
    if m == 0 {
        let empty = Seq::<UploadStep>::empty();
        let first = steps_to(e, mips as int, 0)[0];
        let second = steps_to(e, mips as int, 0)[1];
        holding_push(e, mips, empty, first);
        holding_push(e, mips, empty.push(first), second);
        assert(steps_to(e, mips as int, 0) =~= empty.push(first).push(second));
        assert(holding(e, mips, steps_to(e, mips as int, 0)) =~= Seq::new(mips, |i: int| i <= 0));
    } else {
        let below = (m - 1) as nat;
        holding_to(e, mips, below);
        let before = steps_to(e, mips as int, below);
        let more = level_steps(e, m as int);
        assert(steps_to(e, mips as int, m) =~= before.push(more[0]).push(more[1]).push(more[2]));
        holding_push(e, mips, before, more[0]);
        holding_push(e, mips, before.push(more[0]), more[1]);
        holding_push(e, mips, before.push(more[0]).push(more[1]), more[2]);
        assert(holding(e, mips, steps_to(e, mips as int, m)) =~= Seq::new(mips, |i: int| i <= m));
    }
}

/// An upload fills every level: the picture is copied to the first, and each
/// other is made of all of the one above once that one holds it.
pub proof fn uploads_fill_every_level(e: Extent)
    requires
        e.width > 0,
        e.height > 0,
    ensures
        ({
            let mips = levels(longest(e) as nat);
            holding(e, mips, upload_plan(e)) == Seq::new(mips, |i: int| true)
        }),
        longest(e) >= e.width && longest(e) >= e.height,
        longest(e) == e.width || longest(e) == e.height,
{
    let mips = levels(longest(e) as nat);
    vstd::arithmetic::power2::lemma2_to64();
    levels_bound(longest(e) as nat, 32);
    let m = (mips - 1) as nat;
    holding_to(e, mips, m);
    let before = steps_to(e, mips as int, m);
    holding_push(e, mips, before, upload_plan(e).last());
    assert(holding(e, mips, upload_plan(e)) =~= Seq::new(mips, |i: int| true));
}

} // verus!
