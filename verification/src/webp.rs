//! The animated WebP sink: frames are added to an encoder in index order,
//! each with its accumulated, rounded millisecond timestamp, and the encoder
//! is finalized into the container bytes.
//!
//! The encoder itself belongs to the `webp_animation` crate. Its state is
//! modelled by uninterpreted functions — the frames it was handed with their
//! timestamps, its dimensions, its size-minimizing flag and the timestamp of
//! the last accepted frame — and the finalized container bytes are named as a
//! function of that state. The verified code proves that exactly the input
//! frames, in order and with the exact timestamps, reach the container, and
//! that encoding a well-formed animation succeeds.

use vstd::prelude::*;

verus! {

use vstd::arithmetic::div_mod::lemma_div_is_ordered;
use vstd::arithmetic::div_mod::lemma_div_plus_one;
use vstd::arithmetic::div_mod::lemma_div_pos_is_pos;
use vstd::arithmetic::div_mod::lemma_basic_div;

#[verifier::external_type_specification]
#[verifier::external_body]
pub struct ExWebpEncoder(webp_animation::Encoder);

#[verifier::external_type_specification]
#[verifier::external_body]
pub struct ExWebpAnimationError(webp_animation::Error);

/// The frames an animation encoder has been handed so far, each with the
/// timestamp it was inserted at.
pub uninterp spec fn webp_frames(e: webp_animation::Encoder) -> Seq<(Seq<u8>, int)>;

/// The width and height an animation encoder was created with.
pub uninterp spec fn webp_dimensions(e: webp_animation::Encoder) -> (int, int);

/// Whether an animation encoder was created with the size-minimizing option.
pub uninterp spec fn webp_minimize_size(e: webp_animation::Encoder) -> bool;

/// The timestamp of the last frame an animation encoder accepted; below zero
/// while no frame was accepted yet.
pub uninterp spec fn webp_last_timestamp(e: webp_animation::Encoder) -> int;

/// Whether an animation encoder carries this library's standard
/// configuration: the crate's default options apart from the size-minimizing
/// flag, and no per-frame encoding configuration. The container bytes are
/// pinned down only for such encoders, since the remaining options also
/// shape the output.
pub uninterp spec fn webp_standard_options(e: webp_animation::Encoder) -> bool;

/// The animated WebP container of the given timestamped frames, dimensions,
/// size-minimizing flag and final timestamp, as finalized by an encoder with
/// this library's standard configuration.
pub uninterp spec fn webp_container(
    frames: Seq<(Seq<u8>, int)>,
    width: int,
    height: int,
    minimize_size: bool,
    final_timestamp: int,
) -> Seq<u8>;

/// What went wrong while assembling the animated WebP container.
#[derive(Clone, Copy, Debug, PartialEq, Eq, Structural)]
pub enum WebpError {
    /// The encoder could not be initialized.
    Init,
    /// A frame could not be added to the animation.
    AddFrame,
    /// The animation could not be finalized into container bytes.
    Finalize,
}

/// Relies on webp_animation::Encoder::new_with_options (and on
/// webp_animation::EncoderOptions's default for the remaining options): a
/// fresh encoder holds no frames, remembers the dimensions and the
/// size-minimizing flag set here, carries the standard configuration, and
/// starts with its timestamp sentinel one below zero. Zero dimensions are
/// refused; dimensions within libwebp's limit of 16383 succeed.
#[verifier::external_body]
fn webp_encoder_new(width: u32, height: u32) -> (r: Result<
    webp_animation::Encoder,
    webp_animation::Error,
>)
    ensures
        r matches Ok(e) ==> webp_frames(e) == Seq::<(Seq<u8>, int)>::empty() && webp_dimensions(e)
            == (width as int, height as int) && webp_minimize_size(e) && webp_last_timestamp(e)
            == -1 && webp_standard_options(e),
        width == 0 || height == 0 ==> r is Err,
        1 <= width <= 16383 && 1 <= height <= 16383 ==> r is Ok,
{
    let mut options = webp_animation::EncoderOptions::default();
    options.minimize_size = true;
    webp_animation::Encoder::new_with_options((width, height), options)
}

/// Relies on webp_animation::Encoder::add_frame: on success the frame bytes
/// and their timestamp are appended to the animation and the timestamp is
/// remembered; a failure changes neither the remembered timestamp nor the
/// dimensions, and at most hands the one frame over. A frame whose byte
/// length matches the encoder's RGBA dimensions, within libwebp's limits,
/// with a timestamp above the last one by less than libwebp's maximum frame
/// duration of `2^24` milliseconds, is accepted.
#[verifier::external_body]
fn webp_encoder_add_frame(e: &mut webp_animation::Encoder, data: &Vec<u8>, timestamp_ms: i32) -> (r:
    Result<(), webp_animation::Error>)
    ensures
        webp_dimensions(*final(e)) == webp_dimensions(*old(e)),
        webp_minimize_size(*final(e)) == webp_minimize_size(*old(e)),
        webp_standard_options(*final(e)) == webp_standard_options(*old(e)),
        r is Ok ==> webp_frames(*final(e)) == webp_frames(*old(e)).push(
            (data@, timestamp_ms as int),
        ) && webp_last_timestamp(*final(e)) == timestamp_ms as int,
        r is Err ==> webp_last_timestamp(*final(e)) == webp_last_timestamp(*old(e)) && (webp_frames(
            *final(e),
        ) == webp_frames(*old(e)) || webp_frames(*final(e)) == webp_frames(*old(e)).push(
            (data@, timestamp_ms as int),
        )),
        data@.len() == 4 * webp_dimensions(*old(e)).0 * webp_dimensions(*old(e)).1 && (
        timestamp_ms as int) > webp_last_timestamp(*old(e)) && (timestamp_ms as int)
            - webp_last_timestamp(*old(e)) < 0x1000000 && 1 <= webp_dimensions(*old(e)).0 <= 16383
            && 1 <= webp_dimensions(*old(e)).1 <= 16383 ==> r is Ok,
{
    e.add_frame(data.as_slice(), timestamp_ms)
}

/// Relies on webp_animation::Encoder::finalize: assembles the container
/// bytes, which for an encoder with the standard configuration are a
/// function of the animation's frames, dimensions, size-minimizing flag and
/// the final timestamp; it refuses an animation to which no frame was
/// added, and succeeds when one was and the final timestamp lies at or above
/// the last frame's, less than libwebp's maximum frame duration of `2^24`
/// milliseconds beyond it.
#[verifier::external_body]
fn webp_encoder_finalize(e: webp_animation::Encoder, timestamp_ms: i32) -> (r: Result<
    Vec<u8>,
    webp_animation::Error,
>)
    ensures
        webp_frames(e).len() == 0 ==> r is Err,
        webp_standard_options(e) ==> (r matches Ok(b) ==> b@ == webp_container(
            webp_frames(e),
            webp_dimensions(e).0,
            webp_dimensions(e).1,
            webp_minimize_size(e),
            timestamp_ms as int,
        )),
        webp_frames(e).len() > 0 && (timestamp_ms as int) >= webp_last_timestamp(e) && (
        timestamp_ms as int) - webp_last_timestamp(e) < 0x1000000 ==> r is Ok,
{
    match e.finalize(timestamp_ms) {
        Ok(data) => Ok(data.as_ref().to_vec()),
        Err(err) => Err(err),
    }
}

/// Timestamp in milliseconds at which frame `i` is inserted: the accumulated
/// per-frame duration `i * 1000 / framerate`, rounded to the nearest
/// millisecond with halves rounded up.
pub open spec fn spec_webp_timestamp(i: int, framerate: int) -> int {
    (2000 * i + framerate) / (2 * framerate)
}

/// The frames of an animation at the given framerate: every frame in index
/// order, paired with its insertion timestamp.
pub open spec fn timestamped_frames(frames: Seq<Seq<u8>>, framerate: int) -> Seq<(Seq<u8>, int)> {
    Seq::new(frames.len(), |i: int| (frames[i], spec_webp_timestamp(i, framerate)))
}

/// Computes the insertion timestamp of frame `i`.
pub fn webp_timestamp(i: u64, framerate: u32) -> (t: u64)
    requires
        framerate >= 1,
        i <= 0x10000000000,
    ensures
        t == spec_webp_timestamp(i as int, framerate as int),
{
    (2000 * i + framerate as u64) / (2 * framerate as u64)
}

/// Insertion timestamps never decrease along the frame order.
proof fn lemma_timestamp_ordered(i: int, j: int, framerate: int)
    requires
        0 <= i <= j,
        1 <= framerate,
    ensures
        spec_webp_timestamp(i, framerate) <= spec_webp_timestamp(j, framerate),
        0 <= spec_webp_timestamp(i, framerate),
{
    lemma_div_is_ordered(2000 * i + framerate, 2000 * j + framerate, 2 * framerate);
    lemma_div_pos_is_pos(2000 * i + framerate, 2 * framerate);
}

/// With at most a thousand frames per second the rounded insertion
/// timestamps increase strictly from frame to frame.
proof fn lemma_timestamp_strictly_increases(i: int, framerate: int)
    requires
        0 <= i,
        1 <= framerate <= 1000,
    ensures
        spec_webp_timestamp(i, framerate) < spec_webp_timestamp(i + 1, framerate),
{
    let d = 2 * framerate;
    let a = 2000 * i + framerate;
    lemma_div_plus_one(a, d);
    lemma_div_is_ordered(a + d, a + 2000, d);
}

/// Consecutive insertion timestamps never step by more than the frame
/// duration rounded up: far below the container's maximum frame duration.
proof fn lemma_timestamp_step_bounded(i: int, framerate: int)
    requires
        0 <= i,
        1 <= framerate,
    ensures
        spec_webp_timestamp(i + 1, framerate) - spec_webp_timestamp(i, framerate) <= 1001,
{
    let d = 2 * framerate;
    let a = 2000 * i + framerate;
    lemma_div_is_ordered(a + 2000, a + 1001 * d, d);
    vstd::arithmetic::div_mod::lemma_hoist_over_denominator(a, 1001, d as nat);
}

/// Hands every frame to the animation encoder in index order, each at its
/// rounded accumulated timestamp. On success the encoder holds exactly the
/// old animation extended by the input frames; on failure it holds the old
/// animation extended by some prefix of them. A fresh encoder with matching
/// frame sizes, dimensions within libwebp's limits and at most a thousand
/// frames per second accepts them all.
pub fn push_webp_frames(enc: &mut webp_animation::Encoder, frames: &Vec<Vec<u8>>, framerate: u32) -> (r:
    Result<(), WebpError>)
    requires
        framerate >= 1,
        frames@.len() <= 0x10000000000,
        spec_webp_timestamp(frames@.len() as int, framerate as int) <= i32::MAX,
    ensures
        webp_dimensions(*final(enc)) == webp_dimensions(*old(enc)),
        webp_minimize_size(*final(enc)) == webp_minimize_size(*old(enc)),
        webp_standard_options(*final(enc)) == webp_standard_options(*old(enc)),
        r is Ok ==> webp_frames(*final(enc)) == webp_frames(*old(enc)) + timestamped_frames(
            frames.deep_view(),
            framerate as int,
        ),
        r is Ok && frames@.len() > 0 ==> webp_last_timestamp(*final(enc)) == spec_webp_timestamp(
            frames@.len() - 1,
            framerate as int,
        ),
        r is Ok && frames@.len() == 0 ==> webp_last_timestamp(*final(enc)) == webp_last_timestamp(
            *old(enc),
        ),
        r is Err ==> exists|k: int|
            0 <= k <= frames@.len() && webp_frames(*final(enc)) == webp_frames(*old(enc))
                + timestamped_frames(#[trigger] frames.deep_view().take(k), framerate as int),
        -0x1000000 < webp_last_timestamp(*old(enc)) < 0 && framerate <= 1000 && 1
            <= webp_dimensions(*old(enc)).0 <= 16383 && 1 <= webp_dimensions(*old(enc)).1 <= 16383
            && (forall|i: int|
            0 <= i < frames@.len() ==> (#[trigger] frames@[i])@.len() == 4 * webp_dimensions(
                *old(enc),
            ).0 * webp_dimensions(*old(enc)).1) ==> r is Ok,
{
    let ghost start = webp_frames(*old(enc));
    let ghost start_last = webp_last_timestamp(*old(enc));
    let mut i: usize = 0;
    while i < frames.len()
        invariant
            framerate >= 1,
            frames@.len() <= 0x10000000000,
            spec_webp_timestamp(frames@.len() as int, framerate as int) <= i32::MAX,
            i <= frames@.len(),
            webp_dimensions(*enc) == webp_dimensions(*old(enc)),
            webp_minimize_size(*enc) == webp_minimize_size(*old(enc)),
            webp_standard_options(*enc) == webp_standard_options(*old(enc)),
            start == webp_frames(*old(enc)),
            start_last == webp_last_timestamp(*old(enc)),
            webp_frames(*enc) == start + timestamped_frames(
                frames.deep_view().take(i as int),
                framerate as int,
            ),
            i == 0 ==> webp_last_timestamp(*enc) == start_last,
            i > 0 ==> webp_last_timestamp(*enc) == spec_webp_timestamp(
                i - 1,
                framerate as int,
            ),
        decreases frames@.len() - i,
    {
        let ts: u64 = webp_timestamp(i as u64, framerate);
        proof {
            lemma_timestamp_ordered(i as int, frames@.len() as int, framerate as int);
        }
        let ghost before = *enc;
        match webp_encoder_add_frame(enc, &frames[i], ts as i32) {
            Ok(()) => {},
            Err(_) => {
                proof {
                    if -0x1000000 < start_last < 0 && framerate <= 1000 && 1 <= webp_dimensions(
                        *old(enc),
                    ).0 <= 16383 && 1 <= webp_dimensions(*old(enc)).1 <= 16383 && (forall|q: int|
                        0 <= q < frames@.len() ==> (#[trigger] frames@[q])@.len() == 4
                            * webp_dimensions(*old(enc)).0 * webp_dimensions(*old(enc)).1) {
                        if i > 0 {
                            lemma_timestamp_strictly_increases(i - 1, framerate as int);
                            lemma_timestamp_step_bounded(i - 1, framerate as int);
                        } else {
                            lemma_basic_div(framerate as int, 2 * framerate as int);
                        }
                        assert(false);
                    }
                    let dv = frames.deep_view();
                    let elem = (frames@[i as int]@, spec_webp_timestamp(i as int, framerate as int));
                    if webp_frames(*enc) == webp_frames(before).push(elem) {
                        assert(timestamped_frames(dv.take(i + 1), framerate as int)
                            =~~= timestamped_frames(dv.take(i as int), framerate as int).push(elem));
                        assert(start + timestamped_frames(dv.take(i + 1), framerate as int) =~= (
                        start + timestamped_frames(dv.take(i as int), framerate as int)).push(elem));
                        assert(webp_frames(*enc) == start + timestamped_frames(
                            dv.take(i + 1),
                            framerate as int,
                        ));
                    }
                }
                return Err(WebpError::AddFrame);
            },
        }
        proof {
            let dv = frames.deep_view();
            let t0 = timestamped_frames(dv.take(i as int), framerate as int);
            let t1 = timestamped_frames(dv.take(i + 1), framerate as int);
            let elem = (frames@[i as int]@, spec_webp_timestamp(i as int, framerate as int));
            assert(t1 =~~= t0.push(elem));
            assert(start + t1 =~= (start + t0).push(elem));
        }
        i += 1;
    }
    proof {
        assert(frames.deep_view().take(frames@.len() as int) =~= frames.deep_view());
    }
    Ok(())
}

/// Assembles the animated WebP container: a square animation of the given
/// side length, built with the size-minimizing option, whose frames appear
/// in index order at their accumulated, rounded timestamps, finalized one
/// frame duration after the last frame. On success the returned bytes are
/// exactly that container. It fails on a degenerate image side and on an
/// animation with no frames, and succeeds for a non-empty animation of
/// matching frame sizes within libwebp's dimension limit at up to a thousand
/// frames per second.
pub fn encode_webp(frames: &Vec<Vec<u8>>, image_size: u32, framerate: u32) -> (r: Result<
    Vec<u8>,
    WebpError,
>)
    requires
        framerate >= 1,
        frames@.len() <= 0x10000000000,
        spec_webp_timestamp(frames@.len() as int, framerate as int) <= i32::MAX,
    ensures
        image_size == 0 ==> r is Err,
        frames@.len() == 0 ==> r is Err,
        r matches Ok(b) ==> b@ == webp_container(
            timestamped_frames(frames.deep_view(), framerate as int),
            image_size as int,
            image_size as int,
            true,
            spec_webp_timestamp(frames@.len() as int, framerate as int),
        ),
        1 <= image_size <= 16383 && frames@.len() > 0 && framerate <= 1000 && (forall|i: int|
            0 <= i < frames@.len() ==> (#[trigger] frames@[i])@.len() == 4 * (image_size as int) * (
            image_size as int)) ==> r is Ok,
{
    let mut enc = match webp_encoder_new(image_size, image_size) {
        Ok(e) => e,
        Err(_) => {
            return Err(WebpError::Init);
        },
    };
    match push_webp_frames(&mut enc, frames, framerate) {
        Ok(()) => {},
        Err(err) => {
            return Err(err);
        },
    }
    let final_ts: u64 = webp_timestamp(frames.len() as u64, framerate);
    proof {
        if frames@.len() == 0 {
            assert(timestamped_frames(frames.deep_view(), framerate as int) =~= Seq::<(
                Seq<u8>,
                int,
            )>::empty());
            assert(webp_frames(enc) =~= Seq::<(Seq<u8>, int)>::empty());
        } else {
            lemma_timestamp_ordered(
                frames@.len() - 1,
                frames@.len() as int,
                framerate as int,
            );
            lemma_timestamp_step_bounded(frames@.len() - 1, framerate as int);
        }
        lemma_timestamp_ordered(0, frames@.len() as int, framerate as int);
        assert(Seq::<(Seq<u8>, int)>::empty() + timestamped_frames(
            frames.deep_view(),
            framerate as int,
        ) =~= timestamped_frames(frames.deep_view(), framerate as int));
    }
    match webp_encoder_finalize(enc, final_ts as i32) {
        Ok(bytes) => Ok(bytes),
        Err(_) => Err(WebpError::Finalize),
    }
}

} // verus!
