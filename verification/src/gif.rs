//! The animated GIF sink: frames are encoded in index order into an
//! in-memory container, each tagged with the per-frame delay ratio of
//! `1000 / framerate` milliseconds.
//!
//! The container bytes are named as a function of the frames, the dimensions
//! and the delay ratio; the verified code fixes that exactly the input
//! frames, in order and with that delay, make up the container, and that
//! encoding succeeds whenever the dimensions fit the format.

use vstd::prelude::*;

verus! {

#[verifier::external_type_specification]
#[verifier::external_body]
pub struct ExImageError(image::ImageError);

/// The animated GIF container of the given frames, dimensions and per-frame
/// delay ratio in milliseconds.
pub uninterp spec fn gif_container(
    frames: Seq<Seq<u8>>,
    width: int,
    height: int,
    delay_numer: int,
    delay_denom: int,
) -> Seq<u8>;

/// What went wrong while assembling the animated GIF container.
#[derive(Clone, Copy, Debug, PartialEq, Eq, Structural)]
pub enum GifError {
    /// A frame could not be encoded into the container.
    Encode,
}

/// Relies on image::codecs::gif::GifEncoder::encode_frames, fed through
/// image::Frame::from_parts with image::Delay::from_numer_denom_ms: encodes
/// the frames in index order, each with the delay ratio `1000 / framerate`
/// milliseconds, into an in-memory GIF container. Dimensions beyond sixteen
/// bits are refused; with an in-memory writer nothing else fails.
#[verifier::external_body]
fn gif_encode_frames(frames: &Vec<Vec<u8>>, width: u32, height: u32, framerate: u32) -> (r: Result<
    Vec<u8>,
    image::ImageError,
>)
    requires
        framerate >= 1,
        forall|i: int|
            0 <= i < frames@.len() ==> (#[trigger] frames@[i])@.len() == 4 * (width as int) * (
            height as int),
    ensures
        r matches Ok(b) ==> b@ == gif_container(
            frames.deep_view(),
            width as int,
            height as int,
            1000,
            framerate as int,
        ),
        width <= 0xFFFF && height <= 0xFFFF ==> r is Ok,
{
    let mut buffer: Vec<u8> = Vec::new();
    let mut encoder = image::codecs::gif::GifEncoder::new(&mut buffer);
    let result = encoder.encode_frames(frames.iter().map(|data| {
        image::Frame::from_parts(
            image::RgbaImage::from_raw(width, height, data.clone()).expect("frame fits dimensions"),
            0,
            0,
            image::Delay::from_numer_denom_ms(1000, framerate),
        )
    }));
    drop(encoder);
    match result {
        Ok(()) => Ok(buffer),
        Err(err) => Err(err),
    }
}

/// Assembles the animated GIF container: a square animation of the given
/// side length whose frames appear in index order, each with the delay ratio
/// `1000 / framerate` milliseconds. On success the returned bytes are
/// exactly that container; an image side that fits the format's sixteen-bit
/// dimensions is always accepted.
pub fn encode_gif(frames: &Vec<Vec<u8>>, image_size: u32, framerate: u32) -> (r: Result<
    Vec<u8>,
    GifError,
>)
    requires
        framerate >= 1,
        forall|i: int|
            0 <= i < frames@.len() ==> (#[trigger] frames@[i])@.len() == 4 * (image_size as int) * (
            image_size as int),
    ensures
        r matches Ok(b) ==> b@ == gif_container(
            frames.deep_view(),
            image_size as int,
            image_size as int,
            1000,
            framerate as int,
        ),
        image_size <= 0xFFFF ==> r is Ok,
{
    match gif_encode_frames(frames, image_size, image_size, framerate) {
        Ok(bytes) => Ok(bytes),
        Err(_) => Err(GifError::Encode),
    }
}

} // verus!
