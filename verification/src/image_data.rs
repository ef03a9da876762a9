//! Images that the views show: decoded from downloaded bytes, or blank
//! placeholders.
use vstd::prelude::*;

verus! {

/// An image as 8-bit RGBA pixels, row by row.
pub struct DecodedImage {
    pub width: u32,
    pub height: u32,
    pub rgba: Vec<u8>,
}

/// An image as 8-bit RGB pixels, row by row.
pub struct RgbImage {
    pub width: u32,
    pub height: u32,
    pub rgb: Vec<u8>,
}

pub open spec fn rgb_view(img: RgbImage) -> (u32, u32, Seq<u8>) {
    (img.width, img.height, img.rgb@)
}

/// `n` zero bytes.
pub open spec fn zeros(n: nat) -> Seq<u8> {
    Seq::new(n, |i: int| 0u8)
}

/// What `image::load_from_memory` decodes from `bytes`, as RGBA pixels: the
/// width, the height and the pixel bytes; `None` where it refuses the bytes.
pub uninterp spec fn decoded_rgba8(bytes: Seq<u8>) -> Option<(u32, u32, Seq<u8>)>;

pub open spec fn image_view(img: Option<DecodedImage>) -> Option<(u32, u32, Seq<u8>)> {
    match img {
        Some(i) => Some((i.width, i.height, i.rgba@)),
        None => None,
    }
}

/// Decodes `bytes` with `image::load_from_memory` (the format guessed from the
/// bytes) and converts the image to RGBA with `into_rgba8`. The decoders are
/// not stated: the result is named by `decoded_rgba8`.
#[verifier::external_body]
fn load_rgba8(bytes: &[u8]) -> (r: Option<DecodedImage>)
    ensures
        image_view(r) == decoded_rgba8(bytes@),
{
    image::load_from_memory(bytes).ok().map(|img| img.into_rgba8()).map(|buf| DecodedImage {
        width: buf.width(),
        height: buf.height(),
        rgba: buf.into_raw(),
    })
}

/// A blank RGBA image from `image::DynamicImage::new_rgba8`, taken out with
/// `into_rgba8`: its buffer comes from `ImageBuffer::new`, whose
/// documentation states that every pixel byte is zero.
#[verifier::external_body]
fn new_rgba8(width: u32, height: u32) -> (r: DecodedImage)
    requires
        4 * width * height <= usize::MAX,
    ensures
        r.width == width,
        r.height == height,
        r.rgba@ == zeros((4 * width * height) as nat),
{
    let buf = image::DynamicImage::new_rgba8(width, height).into_rgba8();
    DecodedImage { width: buf.width(), height: buf.height(), rgba: buf.into_raw() }
}

/// A blank RGB image from `image::DynamicImage::new_rgb8`, taken out with
/// `into_rgb8`: its buffer comes from `ImageBuffer::new`, whose documentation
/// states that every pixel byte is zero.
#[verifier::external_body]
fn new_rgb8(width: u32, height: u32) -> (r: RgbImage)
    requires
        3 * width * height <= usize::MAX,
    ensures
        r.width == width,
        r.height == height,
        r.rgb@ == zeros((3 * width * height) as nat),
{
    let buf = image::DynamicImage::new_rgb8(width, height).into_rgb8();
    RgbImage { width: buf.width(), height: buf.height(), rgb: buf.into_raw() }
}

/// A blank RGB image of the given size.
pub fn blank_rgb_image(width: u32, height: u32) -> (r: RgbImage)
    requires
        3 * width * height <= usize::MAX,
    ensures
        r.width == width,
        r.height == height,
        r.rgb@ == zeros((3 * width * height) as nat),
{
    new_rgb8(width, height)
}

/// Whether an image URL is worth a download: an empty URL is not.
pub fn should_download(url: &str) -> (r: bool)
    ensures
        r == (url@.len() > 0),
{
    url.unicode_len() > 0
}

/// The image in downloaded bytes, or `None` where they hold none that the
/// decoders accept.
pub fn decode_downloaded_image(bytes: &[u8]) -> (r: Option<DecodedImage>)
    ensures
        image_view(r) == decoded_rgba8(bytes@),
{
    load_rgba8(bytes)
}

/// A blank image of the given size.
pub fn blank_image(width: u32, height: u32) -> (r: DecodedImage)
    requires
        4 * width * height <= usize::MAX,
    ensures
        r.width == width,
        r.height == height,
        r.rgba@ == zeros((4 * width * height) as nat),
{
    new_rgba8(width, height)
}

/// The image shown for an article image: the downloaded one, or a blank
/// 480 by 280 image where the download gave none.
pub fn article_image_or_blank(downloaded: Option<DecodedImage>) -> (r: DecodedImage)
    ensures
        match downloaded {
            Some(img) => r == img,
            None => r.width == 480 && r.height == 280 && r.rgba@ == zeros(537600),
        },
{
    match downloaded {
        Some(img) => img,
        None => blank_image(480, 280),
    }
}

} // verus!
