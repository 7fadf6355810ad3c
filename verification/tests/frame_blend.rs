use ass_renderer::blur::BoxBlur;
use ass_renderer::compositing::{alpha_blend, CompositeMode};
use ass_renderer::error::RenderError;
use ass_renderer::frame::{Frame, PixelFormat};

#[test]
fn frame_new_is_rgba() {
    let f = Frame::new(vec![1, 2, 3, 4], 1, 1, 42);
    assert_eq!(f.width(), 1);
    assert_eq!(f.height(), 1);
    assert_eq!(f.timestamp(), 42);
    assert_eq!(f.format(), PixelFormat::Rgba8);
    assert_eq!(f.data(), &[1, 2, 3, 4]);
    assert_eq!(f.pixels(), &[1, 2, 3, 4]);
}

#[test]
fn frame_from_rgba_has_zero_timestamp() {
    let f = Frame::from_rgba(vec![0; 8], 2, 1);
    assert_eq!(f.timestamp(), 0);
    assert_eq!(f.stride(), 8);
}

#[test]
fn frame_empty_is_transparent() {
    let f = Frame::empty(2, 2, 5);
    assert_eq!(f.data().len(), 16);
    assert!(f.is_empty());
    assert_eq!(f.timestamp(), 5);
}

#[test]
fn frame_with_timestamp_keeps_pixels() {
    let f = Frame::with_format(vec![9, 8, 7, 6], 1, 1, 1, PixelFormat::Bgra8);
    let g = f.with_timestamp(77);
    assert_eq!(g.timestamp(), 77);
    assert_eq!(g.data(), f.data());
    assert_eq!(g.format(), PixelFormat::Bgra8);
}

#[test]
fn frame_data_mut_writes_through() {
    let mut f = Frame::empty(1, 1, 0);
    f.data_mut()[3] = 255;
    assert!(!f.is_empty());
    assert_eq!(f.into_buffer(), vec![0, 0, 0, 255]);
}

#[test]
fn frame_bgra_to_rgba_swaps_channels() {
    let f = Frame::with_format(vec![1, 2, 3, 4, 5, 6, 7, 8], 2, 1, 0, PixelFormat::Bgra8);
    let g = f.to_rgba();
    assert_eq!(g.format(), PixelFormat::Rgba8);
    assert_eq!(g.data(), &[3, 2, 1, 4, 7, 6, 5, 8]);
}

#[test]
fn frame_rgb_to_rgba_adds_opaque_alpha() {
    let f = Frame::with_format(vec![1, 2, 3, 4, 5, 6], 2, 1, 0, PixelFormat::Rgb8);
    assert_eq!(f.bytes_per_pixel(), 3);
    assert_eq!(f.stride(), 6);
    assert!(!f.is_empty());
    let g = f.to_rgba();
    assert_eq!(g.data(), &[1, 2, 3, 255, 4, 5, 6, 255]);
}

#[test]
fn blend_transparent_source_keeps_destination() {
    assert_eq!(alpha_blend([10, 20, 30, 0], [1, 2, 3, 4]), [1, 2, 3, 4]);
}

#[test]
fn blend_opaque_source_over_empty() {
    assert_eq!(alpha_blend([10, 20, 30, 255], [1, 2, 3, 0]), [10, 20, 30, 255]);
}

#[test]
fn blend_opaque_source_over_opaque_destination() {
    assert_eq!(alpha_blend([10, 20, 30, 255], [200, 200, 200, 255]), [10, 20, 30, 255]);
}

#[test]
fn blend_half_transparent_uses_libass_rounding() {
    assert_eq!(alpha_blend([255, 0, 0, 128], [0, 0, 255, 255]), [128, 0, 127, 255]);
}

#[test]
fn composite_modes_exist() {
    let modes = [CompositeMode::Normal, CompositeMode::Add, CompositeMode::Multiply, CompositeMode::Xor];
    assert_eq!(modes.len(), 4);
}

#[test]
fn box_blur_radius_zero_is_identity() {
    let mut px: Vec<u8> = (0..24).collect();
    let orig = px.clone();
    BoxBlur::new(0).apply(&mut px, 3, 2).unwrap();
    assert_eq!(px, orig);
}

#[test]
fn box_blur_averages_window() {
    let mut px = vec![0, 0, 0, 0, 90, 0, 0, 0, 180, 0, 0, 0];
    BoxBlur::new(1).apply(&mut px, 3, 1).unwrap();
    assert_eq!(px, vec![30, 0, 0, 0, 90, 0, 0, 0, 150, 0, 0, 0]);
}

#[test]
fn box_blur_uniform_image_unchanged() {
    let mut px = vec![7u8; 4 * 4 * 4];
    BoxBlur::new(2).apply(&mut px, 4, 4).unwrap();
    assert!(px.iter().all(|&b| b == 7));
}

#[test]
fn box_blur_rejects_wrong_size() {
    let mut px = vec![1u8; 10];
    match BoxBlur::new(1).apply(&mut px, 2, 2) {
        Err(RenderError::InvalidBufferSize { expected, actual }) => {
            assert_eq!(expected, 16);
            assert_eq!(actual, 10);
        }
        other => panic!("unexpected {:?}", other),
    }
    assert_eq!(px, vec![1u8; 10]);
}

#[test]
fn box_blur_large_radius_on_small_image() {
    let blur = ass_renderer::blur::BoxBlur::new(2100);
    let mut px = vec![255u8, 10, 0, 200];
    assert!(blur.apply(&mut px, 1, 1).is_ok());
    assert_eq!(px, vec![255u8, 10, 0, 200]);
}

#[test]
fn writing_through_a_copy_leaves_the_original() {
    let f = Frame::new(vec![1, 2, 3, 4, 5, 6, 7, 8], 2, 1, 10);
    let d0 = f.data().to_vec();
    let mut g = f.with_timestamp(20);
    g.data_mut()[1] = 99;
    assert_eq!(f.data(), &d0[..]);
    assert_eq!(g.data()[1], 99);
    for j in 0..d0.len() {
        if j != 1 {
            assert_eq!(g.data()[j], d0[j]);
        }
    }
    assert_eq!(g.timestamp(), 20);
    assert_eq!(f.timestamp(), 10);
}
