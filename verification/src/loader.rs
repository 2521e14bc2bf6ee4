use image::imageops::FilterType;
use image::DynamicImage;
use image::GenericImageView;
use std::path::PathBuf;
use std::sync::mpsc::{channel, Receiver, Sender};
use vstd::prelude::*;

verus! {

/// Largest texture dimension uploaded to the GPU. Wallpapers are downscaled to
/// this before becoming textures so a 4K image doesn't stall the first paint.
pub const MAX_DIM: u32 = 1600;

/// A decoded image, carried through the library unread.
#[verifier::external_type_specification]
#[verifier::external_body]
pub struct ExDynamicImage(DynamicImage);

/// The sending end of a channel, carried through the library unread.
#[verifier::external_type_specification]
#[verifier::external_body]
#[verifier::reject_recursive_types(T)]
pub struct ExSender<T>(Sender<T>);

/// The receiving end of a channel, carried through the library unread.
#[verifier::external_type_specification]
#[verifier::external_body]
#[verifier::reject_recursive_types(T)]
pub struct ExReceiver<T>(Receiver<T>);

/// An image ready to become a texture.
pub struct LoadedImage {
    pub path: PathBuf,
    /// Downscaled texture size in pixels.
    pub size: [usize; 2],
    /// Original image dimensions, for the preview caption.
    pub original: (u32, u32),
    pub rgba: Vec<u8>,
}

impl LoadedImage {
    /// The pixel buffer holds exactly four bytes (RGBA) per pixel of `size`,
    /// as a texture of that size needs.
    pub open spec fn wf(&self) -> bool {
        self.rgba@.len() == 4 * self.size@[0] * self.size@[1]
    }
}

/// A loaded image whose pixel buffer fits its size; only such images travel
/// from the loading thread to `Loader::poll`.
pub struct ReadyImage {
    image: LoadedImage,
}

impl ReadyImage {
    #[verifier::type_invariant]
    spec fn buffer_fits(self) -> bool {
        self.image.wf()
    }

    /// The image, when its buffer holds exactly four bytes per pixel of its
    /// size; `None` otherwise.
    pub fn new(image: LoadedImage) -> (res: Option<ReadyImage>)
        ensures
            res is Some <==> image.wf(),
            res matches Some(r) ==> r.image() == image,
    {
        let len = image.rgba.len();
        let needed = match image.size[0].checked_mul(image.size[1]) {
            Some(pixels) => pixels.checked_mul(4),
            None => None,
        };
        proof {
            let a = image.size@[0] as int;
            let b = image.size@[1] as int;
            assert(4 * a * b == a * b * 4 && a * b <= a * b * 4) by (nonlinear_arith)
                requires
                    a >= 0,
                    b >= 0,
            ;
        }
        let fits = match needed {
            Some(n) => n == len,
            None => false,
        };
        if fits {
            Some(ReadyImage { image })
        } else {
            None
        }
    }

    /// The image held.
    pub closed spec fn image(self) -> LoadedImage {
        self.image
    }

    /// Gives back the image held, whose buffer fits its size.
    pub fn into_image(self) -> (res: LoadedImage)
        ensures
            res == self.image(),
            res.wf(),
    {
        proof {
            use_type_invariant(&self);
        }
        self.image
    }
}

/// Loads images on a background thread and hands them back via `poll`.
pub struct Loader {
    tx: Sender<ReadyImage>,
    rx: Receiver<ReadyImage>,
}

/// Calls `std::sync::mpsc::channel`: the two ends of a fresh channel.
#[verifier::external_body]
fn new_channel() -> (Sender<ReadyImage>, Receiver<ReadyImage>) {
    channel()
}

/// Calls `Receiver::try_recv` and keeps the message, if one was waiting. What
/// comes back depends on what other threads have sent by then, so nothing is
/// stated of it.
#[verifier::external_body]
fn try_receive(rx: &Receiver<ReadyImage>) -> Option<ReadyImage> {
    rx.try_recv().ok()
}

/// Calls `Sender::clone`: another sending end of the same channel.
#[verifier::external_body]
fn clone_sender(tx: &Sender<ReadyImage>) -> Sender<ReadyImage> {
    tx.clone()
}

/// The width and height of a decoded image, as
/// `GenericImageView::dimensions` gives them.
pub uninterp spec fn image_size(img: DynamicImage) -> (u32, u32);

/// Calls `GenericImageView::dimensions` on a decoded image: its width and
/// height, named by `image_size`.
#[verifier::external_body]
fn image_dimensions(img: &DynamicImage) -> (res: (u32, u32))
    ensures
        res == image_size(*img),
{
    img.dimensions()
}

/// The size that `DynamicImage::resize` gives an image of `w` × `h` pixels
/// with bounds `max` × `max`: scaled by the smaller of the two ratios,
/// rounded, each side at least one pixel (the crate's floating-point
/// computation in `resize_dimensions`).
pub uninterp spec fn fitted_size(w: u32, h: u32, max: u32) -> (u32, u32);

/// The image that `DynamicImage::resize` gives for bounds `max` × `max` with
/// the triangle (linear) filter: aspect ratio kept, resampled in plain `f32`
/// arithmetic.
pub uninterp spec fn triangle_resized(img: DynamicImage, max: u32) -> DynamicImage;

/// Calls `DynamicImage::resize` with the triangle filter and bounds
/// `max` × `max`; the result is named by `triangle_resized`. Stated besides:
/// its size is `fitted_size` of the image's size and the bound, and it fits
/// within the bounds (each side is at least one pixel, hence `max >= 1`).
#[verifier::external_body]
fn resize_within(img: &DynamicImage, max: u32) -> (res: DynamicImage)
    requires
        max >= 1,
    ensures
        res == triangle_resized(*img, max),
        image_size(res) == fitted_size(image_size(*img).0, image_size(*img).1, max),
        image_size(res).0 <= max,
        image_size(res).1 <= max,
{
    img.resize(max, max, FilterType::Triangle)
}

/// The raw buffer of `DynamicImage::to_rgba8`: the image's pixels as RGBA
/// bytes, row by row.
pub uninterp spec fn rgba_bytes(img: DynamicImage) -> Seq<u8>;

/// Calls `DynamicImage::to_rgba8` and hands back the RGBA image's width,
/// height and raw buffer (named by `rgba_bytes`). The conversion keeps the
/// image's size, and an `ImageBuffer` always holds at least four bytes per
/// pixel.
#[verifier::external_body]
fn rgba_pixels(img: &DynamicImage) -> (res: (u32, u32, Vec<u8>))
    ensures
        (res.0, res.1) == image_size(*img),
        res.2@ == rgba_bytes(*img),
        res.2@.len() >= 4 * res.0 * res.1,
{
    let buf = img.to_rgba8();
    (buf.width(), buf.height(), buf.into_raw())
}

/// An image of `width` × `height` pixels is downscaled before it becomes a
/// texture when either side exceeds `MAX_DIM`.
pub fn texture_needs_downscale(width: u32, height: u32) -> (res: bool)
    ensures
        res == (width > MAX_DIM || height > MAX_DIM),
{
    width > MAX_DIM || height > MAX_DIM
}

/// The image whose pixels become the texture: the image itself, or, when
/// either side exceeds `MAX_DIM`, its triangle-filtered fit within
/// `MAX_DIM` × `MAX_DIM`.
pub open spec fn texture_source(img: DynamicImage) -> DynamicImage {
    if image_size(img).0 > MAX_DIM || image_size(img).1 > MAX_DIM {
        triangle_resized(img, MAX_DIM)
    } else {
        img
    }
}

/// Turns a decoded image into a texture-ready one: records its original
/// dimensions, downscales it (triangle filter, aspect ratio kept) to fit
/// within `MAX_DIM` × `MAX_DIM` when it is larger, and converts it to RGBA,
/// keeping exactly the bytes of its pixels.
pub fn prepare_image(path: PathBuf, img: DynamicImage) -> (res: LoadedImage)
    ensures
        res.path == path,
        res.original == image_size(img),
        res.size@[0] <= MAX_DIM,
        res.size@[1] <= MAX_DIM,
        !(res.original.0 > MAX_DIM || res.original.1 > MAX_DIM) ==> res.size@[0]
            == res.original.0 && res.size@[1] == res.original.1,
        res.original.0 > MAX_DIM || res.original.1 > MAX_DIM ==> res.size@[0] == fitted_size(
            res.original.0,
            res.original.1,
            MAX_DIM,
        ).0 && res.size@[1] == fitted_size(res.original.0, res.original.1, MAX_DIM).1,
        res.rgba@ == rgba_bytes(texture_source(img)).take(4 * res.size@[0] * res.size@[1]),
        res.wf(),
{
    let original = image_dimensions(&img);
    let (w, h, raw) = if texture_needs_downscale(original.0, original.1) {
        let small = resize_within(&img, MAX_DIM);
        rgba_pixels(&small)
    } else {
        rgba_pixels(&img)
    };
    let mut rgba = raw;
    let width = w as usize;
    let height = h as usize;
    let available = rgba.len();
    assert(width * height <= width * height * 4 <= available) by (nonlinear_arith)
        requires
            available >= 4 * w * h,
            width == w,
            height == h,
    ;
    let len = width * height * 4;
    rgba.truncate(len);
    assert(rgba@.len() == 4 * width * height) by (nonlinear_arith)
        requires
            rgba@.len() == len,
            len == width * height * 4,
    ;
    let res = LoadedImage { path, size: [width, height], original, rgba };
    assert(res.size@[0] == width && res.size@[1] == height);
    res
}

impl Loader {
    /// A loader over a fresh channel.
    pub fn new() -> Self {
        let (tx, rx) = new_channel();
        Loader { tx, rx }
    }

    /// A sending end for the thread that loads the images.
    pub fn sender(&self) -> Sender<ReadyImage> {
        clone_sender(&self.tx)
    }

    /// The next loaded image, if one is waiting; its pixel buffer always
    /// holds exactly four bytes per pixel of its size.
    pub fn poll(&self) -> (res: Option<LoadedImage>)
        ensures
            res matches Some(img) ==> img.wf(),
    {
        match try_receive(&self.rx) {
            Some(ready) => Some(ready.into_image()),
            None => None,
        }
    }
}

} // verus!
