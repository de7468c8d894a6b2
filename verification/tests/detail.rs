use explora::detail::{
    decode_jpeg, is_diffuse, load_detail, mip_extents, mip_levels, plan_upload, sized, DetailError,
    Layout, Picture, UploadStep, DETAIL_COUNT, DETAIL_DIFFUSE_BINDINGS, DETAIL_NORMAL_BINDINGS,
    DETAIL_SAMPLER_BINDING, DETAIL_SIDE,
};
use explora::gfx::Extent;
use image::codecs::jpeg::JpegEncoder;
use image::ExtendedColorType;

fn jpeg(width: u32, height: u32, rgb: [u8; 3]) -> Vec<u8> {
    let pixels: Vec<u8> = rgb.iter().copied().cycle().take((width * height * 3) as usize).collect();
    let mut out = Vec::new();
    JpegEncoder::new_with_quality(&mut out, 100)
        .encode(&pixels, width, height, ExtendedColorType::Rgb8)
        .unwrap();
    out
}

#[test]
fn pictures_are_decoded_to_rgba() {
    let bytes = jpeg(16, 8, [200, 100, 50]);
    let p = decode_jpeg(&bytes).unwrap();
    assert_eq!((p.width, p.height), (16, 8));
    assert_eq!(p.pixels.len(), 16 * 8 * 4);
    for t in p.pixels.chunks_exact(4) {
        assert!((t[0] as i32 - 200).abs() <= 3);
        assert!((t[1] as i32 - 100).abs() <= 3);
        assert!((t[2] as i32 - 50).abs() <= 3);
        assert_eq!(t[3], 255);
    }
}

#[test]
fn what_is_no_picture_is_refused() {
    assert!(matches!(decode_jpeg(&[]), Err(DetailError::Decode)));
    assert!(matches!(load_detail(b"not a picture"), Err(DetailError::Decode)));
}

#[test]
fn details_have_one_size() {
    let small = jpeg(8, 8, [1, 2, 3]);
    assert!(matches!(
        load_detail(&small),
        Err(DetailError::Size(Extent { width: 8, height: 8 }))
    ));
    let p = load_detail(&jpeg(DETAIL_SIDE, DETAIL_SIDE, [90, 90, 90])).unwrap();
    assert_eq!(p.pixels.len(), 4 * 2048 * 2048);
    assert!(matches!(
        sized(Picture { pixels: vec![], width: 2048, height: 2047 }),
        Err(DetailError::Size(Extent { width: 2048, height: 2047 }))
    ));
}

#[test]
fn diffuse_maps_come_before_normal_maps() {
    for i in 0..2 * DETAIL_COUNT {
        assert_eq!(is_diffuse(i), i < 4);
    }
    assert_eq!(DETAIL_DIFFUSE_BINDINGS, [12, 13, 14, 15]);
    assert_eq!(DETAIL_NORMAL_BINDINGS, [16, 17, 18, 19]);
    assert_eq!(DETAIL_SAMPLER_BINDING, 20);
}

#[test]
fn mip_chains_end_in_one_pixel() {
    let e = |width, height| Extent { width, height };
    assert_eq!(mip_levels(e(2048, 2048)), 12);
    assert_eq!(mip_levels(e(1, 1)), 1);
    assert_eq!(mip_levels(e(5, 3)), 3);
    assert_eq!(mip_extents(e(5, 3)), vec![e(5, 3), e(2, 1), e(1, 1)]);
    assert_eq!(*mip_extents(e(2048, 2048)).last().unwrap(), e(1, 1));
}

#[test]
fn uploads_leave_every_level_readable() {
    let side = Extent { width: 64, height: 32 };
    let mut layouts = vec![Layout::Undefined; 7];
    let mut filled = vec![false; 7];
    for step in plan_upload(side) {
        match step {
            UploadStep::Barrier { from, to, first, count } => {
                for level in first..first + count {
                    assert_eq!(layouts[level as usize], from);
                    layouts[level as usize] = to;
                }
            }
            UploadStep::Copy => {
                assert_eq!(layouts[0], Layout::TransferDst);
                filled[0] = true;
            }
            UploadStep::Blit { level, source, target } => {
                let level = level as usize;
                assert!(filled[level - 1]);
                assert_eq!(layouts[level - 1], Layout::TransferSrc);
                assert_eq!(layouts[level], Layout::TransferDst);
                assert_eq!(source, mip_extents(side)[level - 1]);
                assert_eq!(target, mip_extents(side)[level]);
                filled[level] = true;
            }
        }
    }
    assert!(filled.iter().all(|&f| f));
    assert!(layouts.iter().all(|&l| l == Layout::ShaderRead));
}
