use std::io::Cursor;

use hilbert_anim::gif::encode_gif;
use hilbert_anim::params::Options;
use hilbert_anim::params::Params;
use hilbert_anim::webp::encode_webp;
use hilbert_anim::webp::webp_timestamp;
use hilbert_anim::webp::WebpError;
use image::codecs::gif::GifDecoder;
use image::AnimationDecoder;
use palette::LinSrgba;
use palette::Srgba;

fn square_channel(progress: f64) -> f64 {
    (-(progress * 4.0 - 2.0).powf(2.0) + 1.0).max(0.0)
}

fn square_linsrgb_channels(i: u64, size: u64) -> Srgba<u8> {
    let progress = i as f64 / size as f64;
    let red_progress = (progress + (1.0 / 3.0)).rem_euclid(1.0);
    let green_progress = progress;
    let blue_progress = (progress - (1.0 / 3.0)).rem_euclid(1.0);
    let color = LinSrgba::new(
        square_channel(red_progress),
        square_channel(green_progress),
        square_channel(blue_progress),
        1.0,
    );
    color.into_encoding()
}

fn frame_rgba(params: &Params, frame_index: usize) -> Vec<u8> {
    let offset = params.frame_offset(frame_index);
    let ranks = params.gen_frame_ranks(offset);
    let mut data = Vec::new();
    for rank in ranks {
        let (r, g, b, a) = square_linsrgb_channels(rank, params.num_pixels).into_components();
        data.push(r);
        data.push(g);
        data.push(b);
        data.push(a);
    }
    data
}

fn test_params(order: u8, frames: usize, framerate: u32) -> Params {
    Params::new(Options {
        order,
        function: "square_linsrgb_channels".to_owned(),
        frames,
        framerate,
        loops: 1,
        bitrate: None,
        filename: "out.gif".to_owned(),
    })
    .unwrap()
}

#[test]
fn webp_timestamps_accumulate_and_round() {
    assert_eq!(webp_timestamp(0, 30), 0);
    assert_eq!(webp_timestamp(1, 30), 33);
    assert_eq!(webp_timestamp(2, 30), 67);
    assert_eq!(webp_timestamp(3, 30), 100);
    assert_eq!(webp_timestamp(1, 25), 40);
    assert_eq!(webp_timestamp(1, 1000), 1);
    // 1000 / 16 = 62.5: the half rounds up.
    assert_eq!(webp_timestamp(1, 16), 63);
}

#[test]
fn webp_container_holds_every_frame() {
    let params = test_params(2, 4, 30);
    let mut frames = Vec::new();
    for i in 0..4 {
        frames.push(frame_rgba(&params, i));
    }
    let bytes = encode_webp(&frames, params.image_size, params.framerate).unwrap();
    let decoder = webp_animation::Decoder::new(&bytes).unwrap();
    assert_eq!(decoder.dimensions(), (4, 4));
    let mut count = 0;
    let mut last_timestamp = -1;
    for frame in decoder {
        assert_eq!(frame.dimensions(), (4, 4));
        assert_eq!(frame.data().len(), 4 * 4 * 4);
        assert!(frame.timestamp() > last_timestamp);
        last_timestamp = frame.timestamp();
        count += 1;
    }
    assert_eq!(count, 4);
}

#[test]
fn webp_without_frames_is_an_error() {
    let frames: Vec<Vec<u8>> = Vec::new();
    assert_eq!(encode_webp(&frames, 4, 30), Err(WebpError::Finalize));
}

#[test]
fn webp_with_short_frame_buffer_is_an_error() {
    // 3 bytes cannot fill a 4x4 RGBA frame.
    let frames = vec![vec![0u8; 3]];
    assert_eq!(encode_webp(&frames, 4, 30), Err(WebpError::AddFrame));
}

#[test]
fn webp_with_degenerate_size_is_an_error() {
    let params = test_params(2, 1, 30);
    let frames = vec![frame_rgba(&params, 0)];
    assert_eq!(encode_webp(&frames, 0, 30), Err(WebpError::Init));
}

#[test]
fn frame_bytes_are_deterministic() {
    let params = test_params(3, 8, 30);
    for i in 0..8 {
        assert_eq!(frame_rgba(&params, i), frame_rgba(&params, i));
    }
}

#[test]
fn gif_container_holds_every_frame_with_its_delay() {
    // 4x4 grid, 4 frames, 25 frames per second: a 40 ms delay per frame.
    let params = test_params(2, 4, 25);
    let mut frames = Vec::new();
    for i in 0..4 {
        frames.push(frame_rgba(&params, i));
    }
    let buffer = encode_gif(&frames, params.image_size, params.framerate).unwrap();
    let decoder = GifDecoder::new(Cursor::new(buffer)).unwrap();
    let decoded = decoder.into_frames().collect_frames().unwrap();
    assert_eq!(decoded.len(), 4);
    for frame in &decoded {
        assert_eq!(frame.buffer().dimensions(), (4, 4));
        let (numer, denom) = frame.delay().numer_denom_ms();
        assert!(denom != 0);
        assert_eq!(numer % denom, 0);
        assert_eq!(numer / denom, 40);
    }
}
