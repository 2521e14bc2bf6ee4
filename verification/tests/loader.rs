use cherry::loader::{prepare_image, texture_needs_downscale, LoadedImage, Loader, ReadyImage, MAX_DIM};
use image::DynamicImage;
use std::path::PathBuf;

#[test]
fn downscale_only_above_the_texture_limit() {
    assert_eq!(MAX_DIM, 1600);
    assert!(!texture_needs_downscale(1600, 1600));
    assert!(!texture_needs_downscale(10, 20));
    assert!(texture_needs_downscale(1601, 10));
    assert!(texture_needs_downscale(10, 1601));
    assert!(texture_needs_downscale(3840, 2160));
}

#[test]
fn large_image_is_downscaled_to_fit() {
    let img = DynamicImage::new_rgb8(3200, 1000);
    let loaded = prepare_image(PathBuf::from("/walls/wide.png"), img);
    assert_eq!(loaded.path, PathBuf::from("/walls/wide.png"));
    assert_eq!(loaded.original, (3200, 1000));
    assert_eq!(loaded.size, [1600, 500]);
    assert_eq!(loaded.rgba.len(), 1600 * 500 * 4);
}

#[test]
fn small_image_keeps_its_size() {
    let img = DynamicImage::new_luma8(30, 20);
    let loaded = prepare_image(PathBuf::from("s.png"), img);
    assert_eq!(loaded.original, (30, 20));
    assert_eq!(loaded.size, [30, 20]);
    assert_eq!(loaded.rgba.len(), 30 * 20 * 4);
    assert!(loaded.rgba.chunks(4).all(|p| p == [0, 0, 0, 255]));
}

#[test]
fn loader_hands_back_what_was_sent() {
    let loader = Loader::new();
    assert!(loader.poll().is_none());
    let tx = loader.sender();
    let image = LoadedImage { path: PathBuf::from("x.png"), size: [1, 1], original: (1, 1), rgba: vec![1, 2, 3, 4] };
    tx.send(ReadyImage::new(image).expect("buffer fits")).unwrap();
    let got = loader.poll().expect("an image was sent");
    assert_eq!(got.path, PathBuf::from("x.png"));
    assert_eq!(got.rgba, vec![1, 2, 3, 4]);
    assert!(loader.poll().is_none());
}

#[test]
fn ready_image_only_takes_buffers_that_fit() {
    let fits = LoadedImage { path: PathBuf::from("a.png"), size: [2, 3], original: (4, 6), rgba: vec![7; 24] };
    let ready = ReadyImage::new(fits).expect("24 bytes for 2 x 3 pixels");
    let back = ready.into_image();
    assert_eq!(back.size, [2, 3]);
    assert_eq!(back.original, (4, 6));
    assert_eq!(back.rgba, vec![7; 24]);
    let short = LoadedImage { path: PathBuf::from("b.png"), size: [2, 3], original: (2, 3), rgba: vec![0; 23] };
    assert!(ReadyImage::new(short).is_none());
    let huge = LoadedImage { path: PathBuf::from("c.png"), size: [usize::MAX, 2], original: (1, 1), rgba: vec![0; 8] };
    assert!(ReadyImage::new(huge).is_none());
}

#[test]
fn prepared_images_are_ready() {
    let loaded = prepare_image(PathBuf::from("w.png"), DynamicImage::new_rgba8(2000, 2000));
    assert!(ReadyImage::new(loaded).is_some());
}

#[test]
fn uhd_image_becomes_1600_by_900() {
    let loaded = prepare_image(PathBuf::from("uhd.png"), DynamicImage::new_rgb8(3840, 2160));
    assert_eq!(loaded.original, (3840, 2160));
    assert_eq!(loaded.size, [1600, 900]);
    assert_eq!(loaded.rgba.len(), 1600 * 900 * 4);
}

#[test]
fn image_of_exactly_the_limit_keeps_its_size() {
    let loaded = prepare_image(PathBuf::from("edge.png"), DynamicImage::new_rgb8(1600, 1600));
    assert_eq!(loaded.original, (1600, 1600));
    assert_eq!(loaded.size, [1600, 1600]);
}

#[test]
fn downscaled_pixels_come_from_the_image() {
    let mut buf = image::RgbImage::new(3200, 100);
    for p in buf.pixels_mut() {
        *p = image::Rgb([200, 10, 30]);
    }
    let loaded = prepare_image(PathBuf::from("red.png"), DynamicImage::ImageRgb8(buf));
    assert_eq!(loaded.size, [1600, 50]);
    assert!(loaded.rgba.chunks(4).all(|p| p == [200, 10, 30, 255]));
}
