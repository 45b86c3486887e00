use bevy_react_core::image_rendering::pyramid::{
    build_pyramid, check, level_count, pyramid_plan, source_texel, ImageDesc, PixelFormat,
    PyramidError, Rgba8,
};

#[test]
fn level_count_covers_the_chain_down_to_one_texel() {
    assert_eq!(level_count(486, 526), 10);
    assert_eq!(level_count(1, 1), 1);
    assert_eq!(level_count(2, 2), 2);
    assert_eq!(level_count(0, 0), 1);
    assert_eq!(level_count(u32::MAX, 1), 32);
}

#[test]
fn plan_halves_with_floor_down_to_one_by_one() {
    // 4×2 → 2×1 → 1×1: three levels, 32 + 8 + 4 bytes.
    let (steps, total) = pyramid_plan(4, 2);
    assert_eq!(steps.len(), 2);
    assert_eq!((steps[0].src_width, steps[0].src_height, steps[0].src_start), (4, 2, 0));
    assert_eq!((steps[0].dst_width, steps[0].dst_height), (2, 1));
    assert_eq!((steps[1].src_width, steps[1].src_height, steps[1].src_start), (2, 1, 32));
    assert_eq!((steps[1].dst_width, steps[1].dst_height), (1, 1));
    assert_eq!(total, 32 + 8 + 4);
    // 3×1: level 1 is 1×1.
    let (steps, total) = pyramid_plan(3, 1);
    assert_eq!(steps.len(), 1);
    assert_eq!((steps[0].dst_width, steps[0].dst_height), (1, 1));
    assert_eq!(total, 12 + 4);
}

#[test]
fn missing_columns_and_rows_clamp_to_the_edge() {
    // Byte offsets of the four source texels of an output texel.
    // 3×1, output texel 0: columns 0 and 1, the missing row clamps to 0.
    assert_eq!(source_texel(0, 0, 0, 0, 3, 1), 0);
    assert_eq!(source_texel(0, 0, 1, 0, 3, 1), 4);
    assert_eq!(source_texel(0, 0, 0, 1, 3, 1), 0);
    assert_eq!(source_texel(0, 0, 1, 1, 3, 1), 4);
    // 1×3: the missing column clamps.
    assert_eq!(source_texel(0, 0, 1, 0, 1, 3), 0);
    assert_eq!(source_texel(0, 0, 0, 1, 1, 3), 4);
    // 4×4, output (1, 1): texel (3, 3).
    assert_eq!(source_texel(1, 1, 1, 1, 4, 4), (3 * 4 + 3) * 4);
    // 1×1: every tap is the one texel.
    assert_eq!(source_texel(0, 0, 1, 1, 1, 1), 0);
}

#[test]
fn zero_sized_images_have_just_their_empty_level() {
    assert_eq!(level_count(0, 1), 1);
    let (steps, total) = pyramid_plan(0, 1);
    assert!(steps.is_empty());
    assert_eq!(total, 0);
    let (steps, total) = pyramid_plan(0, 0);
    assert!(steps.is_empty());
    assert_eq!(total, 0);
}

/// An image of `w × h` RGBA8 texels as the pyramid reads it.
fn image(w: u32, h: u32, format: PixelFormat, texels: &[[u8; 4]]) -> (ImageDesc, Vec<u8>) {
    let data: Vec<u8> = texels.iter().flatten().copied().collect();
    let desc = ImageDesc {
        format,
        is_2d: true,
        layers: 1,
        mip_level_count: 1,
        width: w,
        height: h,
        data_len: Some(data.len()),
    };
    (desc, data)
}

/// The 2×2 box filter in linear light, alpha weighted.
fn box_average(texels: [Rgba8; 4], srgb: bool) -> Rgba8 {
    let decode = |v: u8| {
        let c = v as f32 / 255.0;
        if srgb {
            bevy::color::Srgba::gamma_function(c)
        } else {
            c
        }
    };
    let encode = |v: f32| {
        let v = v.clamp(0.0, 1.0);
        if srgb {
            let steps = 4096.0f32;
            let q = (v * (steps - 1.0)).round() / (steps - 1.0);
            (bevy::color::Srgba::gamma_function_inverse(q) * 255.0).round() as u8
        } else {
            (v * 255.0).round() as u8
        }
    };
    let mut acc = [0f32; 4];
    for t in texels {
        let a = t.a as f32 / 255.0;
        acc[0] += decode(t.r) * a;
        acc[1] += decode(t.g) * a;
        acc[2] += decode(t.b) * a;
        acc[3] += a;
    }
    let rgb = if acc[3] > 0.0 { [acc[0] / acc[3], acc[1] / acc[3], acc[2] / acc[3]] } else { [0.0; 3] };
    Rgba8 { r: encode(rgb[0]), g: encode(rgb[1]), b: encode(rgb[2]), a: (acc[3] / 4.0 * 255.0).round() as u8 }
}

fn build(img: &mut (ImageDesc, Vec<u8>)) -> Result<u32, PyramidError> {
    let srgb = img.0.format == PixelFormat::Rgba8UnormSrgb;
    build_pyramid(&mut img.0, &mut img.1, |a, b, c, d| box_average([a, b, c, d], srgb))
}

fn level(img: &(ImageDesc, Vec<u8>), at: usize) -> [u8; 4] {
    [img.1[at], img.1[at + 1], img.1[at + 2], img.1[at + 3]]
}

/// Non-power-of-two sizes: levels halve with floor (min 1) and the missing
/// column clamps to the edge; the chain runs down to 1×1.
#[test]
fn odd_and_rectangular_sizes_clamp_to_the_edge() {
    let b = [0, 0, 0, 255];
    let w = [255, 255, 255, 255];
    // 3×1: level 1 is 1×1 from columns 0,1 (column 2 is beyond the 2×2).
    let mut img = image(3, 1, PixelFormat::Rgba8UnormSrgb, &[b, w, w]);
    assert_eq!(build(&mut img), Ok(2));
    assert_eq!(level(&img, 12), [188, 188, 188, 255]);
    // 1×3: the same along y, the missing row clamps.
    let mut img = image(1, 3, PixelFormat::Rgba8UnormSrgb, &[b, w, w]);
    assert_eq!(build(&mut img), Ok(2));
    assert_eq!(level(&img, 12), [188, 188, 188, 255]);
    // 4×2 → 2×1 → 1×1: three levels, 32 + 8 + 4 bytes.
    let mut img = image(4, 2, PixelFormat::Rgba8UnormSrgb, &[b; 8]);
    assert_eq!(build(&mut img), Ok(3));
    assert_eq!(img.1.len(), 32 + 8 + 4);
    assert_eq!(img.0.mip_level_count, 3);
    assert_eq!(img.0.data_len, Some(44));
    assert_eq!(level_count(486, 526), 10);
    assert_eq!(level_count(1, 1), 1);
}

/// Unsupported inputs are refused with a reason and leave the image
/// untouched; a 1×1 image is a valid one-level pyramid.
#[test]
fn build_refuses_unsupported_images_untouched() {
    let px = [[1, 2, 3, 4]];
    let mut img = image(1, 1, PixelFormat::Other, &px);
    assert_eq!(build(&mut img), Err(PyramidError::Format));
    assert_eq!(img.0.mip_level_count, 1);
    assert_eq!(img.1, vec![1, 2, 3, 4]);

    let mut img = image(1, 1, PixelFormat::Rgba8UnormSrgb, &px);
    img.0.mip_level_count = 3;
    assert_eq!(check(&img.0), Err(PyramidError::AlreadyMipped));
    assert_eq!(build(&mut img), Err(PyramidError::AlreadyMipped));
    assert_eq!(img.0.mip_level_count, 3);

    let mut img = image(1, 1, PixelFormat::Rgba8UnormSrgb, &px);
    img.0.data_len = None;
    img.1.clear();
    assert_eq!(check(&img.0), Err(PyramidError::NoData));

    let mut img = image(1, 1, PixelFormat::Rgba8UnormSrgb, &px);
    assert_eq!(build(&mut img), Ok(1));
    assert_eq!(img.1, vec![1, 2, 3, 4]);
}

#[test]
fn srgb_average_is_in_linear_light() {
    let b = [0, 0, 0, 255];
    let w = [255, 255, 255, 255];
    let mut img = image(2, 2, PixelFormat::Rgba8UnormSrgb, &[b, w, w, b]);
    assert_eq!(build(&mut img), Ok(2));
    assert_eq!(img.0.mip_level_count, 2);
    assert_eq!(img.1.len(), 16 + 4);
    assert_eq!(level(&img, 16), [188, 188, 188, 255]);
    // The linear format averages linearly: 127.5 rounds to 128.
    let mut img = image(2, 2, PixelFormat::Rgba8Unorm, &[b, w, w, b]);
    assert_eq!(build(&mut img), Ok(2));
    assert_eq!(level(&img, 16), [128, 128, 128, 255]);
}

#[test]
fn average_is_alpha_weighted() {
    let red = [255, 0, 0, 255];
    let clear = [0, 0, 0, 0];
    let mut img = image(2, 2, PixelFormat::Rgba8UnormSrgb, &[red, clear, clear, clear]);
    build(&mut img).unwrap();
    assert_eq!(level(&img, 16), [255, 0, 0, 64]);
    let mut img = image(2, 2, PixelFormat::Rgba8UnormSrgb, &[clear; 4]);
    build(&mut img).unwrap();
    assert_eq!(level(&img, 16), [0, 0, 0, 0]);
}

#[test]
fn each_level_reads_the_one_before() {
    // 4×4 → 2×2 → 1×1 with a sum-of-reds "average": level 2 sums level 1.
    let texels: Vec<[u8; 4]> = (0..16).map(|i| [i as u8, 0, 0, 0]).collect();
    let mut img = image(4, 4, PixelFormat::Rgba8Unorm, &texels);
    let r = build_pyramid(&mut img.0, &mut img.1, |a, b, c, d| Rgba8 {
        r: a.r.wrapping_add(b.r).wrapping_add(c.r).wrapping_add(d.r),
        g: 0,
        b: 0,
        a: 0,
    });
    assert_eq!(r, Ok(3));
    // Level 1: boxes {0,1,4,5}, {2,3,6,7}, {8,9,12,13}, {10,11,14,15}.
    assert_eq!([img.1[64], img.1[68], img.1[72], img.1[76]], [10, 18, 42, 50]);
    assert_eq!(img.1[80], 120);
    assert_eq!(&img.1[..64], &texels.iter().flatten().copied().collect::<Vec<u8>>()[..]);
}
