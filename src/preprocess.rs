//! Sizing and laying out an uploaded picture for the network.
use vstd::prelude::*;
use crate::error::DetectError;

verus! {

/// The longer side of the network's input.
pub const BASE_SIZE: u32 = 640;

/// Both sides of the network's input are multiples of this.
pub const SIZE_STEP: u32 = 32;

#[verifier::external_type_specification]
#[verifier::external_body]
pub struct ExImageError(image::ImageError);

/// What decoding `bytes` as a picture gives: its width, height and 8-bit RGB
/// samples row by row, or nothing where the bytes are not a picture that
/// the decoder understands.
pub uninterp spec fn decoded_picture(bytes: Seq<u8>) -> Option<(u32, u32, Seq<u8>)>;

/// The 8-bit RGB samples of a `width` by `height` picture resampled to
/// `new_width` by `new_height` with a Catmull-Rom filter.
pub uninterp spec fn resampled(
    pixels: Seq<u8>,
    width: u32,
    height: u32,
    new_width: u32,
    new_height: u32,
) -> Seq<u8>;

/// Relies on image::load_from_memory, which guesses the format from the
/// bytes and decodes them, and on DynamicImage::to_rgb8 and
/// ImageBuffer::into_raw to give the pixels as 8-bit RGB rows.
#[verifier::external_body]
fn decode_rgb8(bytes: &[u8]) -> (r: Result<(u32, u32, Vec<u8>), image::ImageError>)
    ensures
        match r {
            Ok((w, h, px)) => decoded_picture(bytes@) == Some((w, h, px@)),
            Err(_) => decoded_picture(bytes@) is None,
        },
{
    match image::load_from_memory(bytes) {
        Ok(img) => {
            let rgb = img.to_rgb8();
            Ok((rgb.width(), rgb.height(), rgb.into_raw()))
        },
        Err(e) => Err(e),
    }
}

/// Relies on image::imageops::resize with FilterType::CatmullRom, on an
/// image made by ImageBuffer::from_raw (which accepts a buffer of exactly
/// `3 * width * height` samples); the result is a new buffer of
/// `3 * new_width * new_height` samples.
#[verifier::external_body]
fn resize_catmull_rom(
    pixels: Vec<u8>,
    width: u32,
    height: u32,
    new_width: u32,
    new_height: u32,
) -> (r: Vec<u8>)
    requires
        pixels@.len() == 3 * width * height,
        3 * new_width * new_height <= usize::MAX,
    ensures
        r@ == resampled(pixels@, width, height, new_width, new_height),
        r@.len() == 3 * new_width * new_height,
{
    let img = image::RgbImage::from_raw(width, height, pixels).unwrap();
    image::imageops::resize(&img, new_width, new_height, image::imageops::FilterType::CatmullRom)
        .into_raw()
}

/// The network's input size for a `width` by `height` picture: the longer
/// side becomes 640, the other is scaled in proportion and rounded down to
/// a multiple of 32.
pub open spec fn target_size(width: int, height: int) -> (int, int) {
    if width < height {
        (width * 640 / height / 32 * 32, 640)
    } else {
        (640, height * 640 / width / 32 * 32)
    }
}

/// Samples of a picture of `n` pixels, from row-major RGB (pixel by pixel)
/// to channel-major (all red samples, then green, then blue).
pub open spec fn channel_major(pixels: Seq<u8>, n: int) -> Seq<u8> {
    Seq::new((3 * n) as nat, |k: int| pixels[(k % n) * 3 + k / n])
}

/// A picture laid out for the network: `samples` holds `3 * width * height`
/// values channel by channel, each row by row; dividing each by 255 gives
/// the normalised input.
pub struct NetworkInput {
    pub width: u32,
    pub height: u32,
    pub samples: Vec<u8>,
}

/// What preparing decoded RGB samples gives: the target size and the
/// resampled samples laid out by channel.
pub open spec fn prepared(width: u32, height: u32, pixels: Seq<u8>) -> Result<
    (u32, u32, Seq<u8>),
    DetectError,
> {
    if width == 0 || height == 0 || pixels.len() != 3 * width * height {
        Err(DetectError::InvalidImage)
    } else {
        let (nw, nh) = target_size(width as int, height as int);
        Ok(
            (
                nw as u32,
                nh as u32,
                channel_major(resampled(pixels, width, height, nw as u32, nh as u32), nw * nh),
            ),
        )
    }
}

/// What preprocessing an upload gives.
pub open spec fn preprocessed(bytes: Seq<u8>) -> Result<(u32, u32, Seq<u8>), DetectError> {
    match decoded_picture(bytes) {
        Some((w, h, px)) => prepared(w, h, px),
        None => Err(DetectError::InvalidImage),
    }
}

/// The network's input size for a picture; fails with `InvalidImage` when
/// either side is zero.
pub fn resized_dimensions(width: u32, height: u32) -> (r: Result<(u32, u32), DetectError>)
    ensures
        match r {
            Ok((w, h)) => width > 0 && height > 0 && (w as int, h as int) == target_size(
                width as int,
                height as int,
            ) && w <= BASE_SIZE && h <= BASE_SIZE && w % SIZE_STEP == 0 && h % SIZE_STEP == 0,
            Err(e) => e == DetectError::InvalidImage && (width == 0 || height == 0),
        },
{
    if width == 0 || height == 0 {
        return Err(DetectError::InvalidImage);
    }
    let w = width as u64;
    let h = height as u64;
    if w < h {
        let scaled = w * 640 / h;
        proof {
            assert((w as int) * 640 / (h as int) <= 640) by (nonlinear_arith)
                requires
                    w < h,
                    h > 0,
            ;
        }
        Ok(((scaled / 32 * 32) as u32, BASE_SIZE))
    } else {
        let scaled = h * 640 / w;
        proof {
            assert((h as int) * 640 / (w as int) <= 640) by (nonlinear_arith)
                requires
                    h <= w,
                    w > 0,
            ;
        }
        Ok((BASE_SIZE, (scaled / 32 * 32) as u32))
    }
}

/// Lays out the samples of a picture of `width * height` pixels by channel.
pub fn to_channel_major(pixels: &Vec<u8>, width: u32, height: u32) -> (r: Vec<u8>)
    requires
        pixels@.len() == 3 * width * height,
    ensures
        r@ == channel_major(pixels@, width * height),
{
    let total: usize = pixels.len();
    proof {
        assert(0 <= (width as int) * (height as int) <= total && total == 3 * ((width as int) * (
        height as int))) by (nonlinear_arith)
            requires
                total == 3 * width * height,
        ;
    }
    let n: usize = width as usize * height as usize;
    let mut r: Vec<u8> = Vec::new();
    let mut k: usize = 0;
    while k < total
        invariant
            n == width * height,
            total == 3 * n,
            pixels@.len() == total,
            k <= total,
            r@.len() == k,
            forall|j: int|
                0 <= j < k ==> #[trigger] r@[j] == pixels@[(j % n as int) * 3 + j / n as int],
        decreases total - k,
    {
        proof {
            assert(0 <= (k % n) * 3 + k / n < 3 * n) by (nonlinear_arith)
                requires
                    k < 3 * n,
                    n > 0,
            ;
        }
        r.push(pixels[(k % n) * 3 + k / n]);
        k += 1;
    }
    assert(r@ =~= channel_major(pixels@, width * height));
    r
}

/// Sizes and lays out decoded RGB samples for the network; fails with
/// `InvalidImage` when the picture has no pixels or the samples do not fill
/// it.
pub fn prepare(width: u32, height: u32, pixels: Vec<u8>) -> (r: Result<NetworkInput, DetectError>)
    ensures
        match (r, prepared(width, height, pixels@)) {
            (Ok(i), Ok((w, h, s))) => i.width == w && i.height == h && i.samples@ == s,
            (Err(e), Err(f)) => e == f,
            _ => false,
        },
{
    let (nw, nh) = match resized_dimensions(width, height) {
        Ok(d) => d,
        Err(e) => {
            return Err(e);
        },
    };
    proof {
        assert((width as int) * (height as int) <= 0xffff_ffff * 0xffff_ffff) by (nonlinear_arith)
            requires
                width <= 0xffff_ffff,
                height <= 0xffff_ffff,
        ;
        assert(3 * ((width as int) * (height as int)) == 3 * width * height) by (nonlinear_arith);
    }
    if pixels.len() as u128 != 3 * ((width as u128) * (height as u128)) {
        return Err(DetectError::InvalidImage);
    }
    proof {
        assert(3 * nw * nh <= 3 * 640 * 640) by (nonlinear_arith)
            requires
                nw <= 640,
                nh <= 640,
        ;
    }
    let resized = resize_catmull_rom(pixels, width, height, nw, nh);
    let samples = to_channel_major(&resized, nw, nh);
    Ok(NetworkInput { width: nw, height: nh, samples })
}

/// Decodes an uploaded picture and lays it out for the network; fails with
/// `InvalidImage` when the bytes are not a picture the decoder understands,
/// or the picture has no pixels.
pub fn preprocess(bytes: &[u8]) -> (r: Result<NetworkInput, DetectError>)
    ensures
        match (r, preprocessed(bytes@)) {
            (Ok(i), Ok((w, h, s))) => i.width == w && i.height == h && i.samples@ == s,
            (Err(e), Err(f)) => e == f,
            _ => false,
        },
{
    match decode_rgb8(bytes) {
        Ok((w, h, px)) => prepare(w, h, px),
        Err(_) => Err(DetectError::InvalidImage),
    }
}

/// Preprocessing is a function of the upload's bytes.
pub proof fn lemma_preprocess_deterministic(bytes1: Seq<u8>, bytes2: Seq<u8>)
    requires
        bytes1 == bytes2,
    ensures
        preprocessed(bytes1) == preprocessed(bytes2),
{
}

} // verus!
