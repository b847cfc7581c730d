use hilbert_anim::color::ColorFunction;
use hilbert_anim::hilbert::coords_to_rank;
use hilbert_anim::params::render_frame_bytes;
use hilbert_anim::params::ConfigError;
use hilbert_anim::params::Options;
use hilbert_anim::params::Params;

fn options_for(order: u8, frames: usize) -> Options {
    Options {
        order,
        function: "oklab_hue".to_owned(),
        frames,
        framerate: 30,
        loops: 1,
        bitrate: None,
        filename: "out.webp".to_owned(),
    }
}

#[test]
fn derived_geometry() {
    let params = Params::new(options_for(2, 4)).unwrap();
    assert_eq!(params.image_size, 4);
    assert_eq!(params.num_pixels, 16);
    let params = Params::new(options_for(0, 1)).unwrap();
    assert_eq!(params.image_size, 1);
    assert_eq!(params.num_pixels, 1);
    let params = Params::new(options_for(9, 256)).unwrap();
    assert_eq!(params.image_size, 512);
    assert_eq!(params.num_pixels, 512 * 512);
}

#[test]
fn validated_config_resolves_the_function() {
    let mut options = options_for(2, 4);
    options.function = "square_value".to_owned();
    let (params, function) = Params::validated(options).unwrap();
    assert_eq!(function, ColorFunction::SquareValue);
    assert_eq!(params.image_size, 4);
    assert_eq!(params.num_pixels, 16);
}

#[test]
fn config_rejects_an_unknown_function() {
    let mut options = options_for(2, 4);
    options.function = "sepia".to_owned();
    assert!(matches!(Params::new(options), Err(ConfigError::UnknownFunction)));
}

#[test]
fn validated_config_rejects_an_unknown_function() {
    let mut options = options_for(2, 4);
    options.function = "sepia".to_owned();
    assert!(matches!(
        Params::validated(options),
        Err(ConfigError::UnknownFunction)
    ));
}

#[test]
fn frame_offsets_for_four_frames_of_sixteen_pixels() {
    let params = Params::new(options_for(2, 4)).unwrap();
    let mut offsets = Vec::new();
    for i in 0..4 {
        offsets.push(params.frame_offset(i));
    }
    assert_eq!(offsets, vec![0, 4, 8, 12]);
}

#[test]
fn frame_offset_truncates() {
    // 3 frames over 16 pixels: 0, 16/3, 32/3, truncated.
    let params = Params::new(options_for(2, 3)).unwrap();
    assert_eq!(params.frame_offset(0), 0);
    assert_eq!(params.frame_offset(1), 5);
    assert_eq!(params.frame_offset(2), 10);
}

#[test]
fn rank_grid_of_order_one() {
    let params = Params::new(options_for(1, 4)).unwrap();
    let grid = params.gen_frame_ranks(0);
    assert_eq!(grid, vec![0, 3, 1, 2]);
    let rotated = params.gen_frame_ranks(2);
    assert_eq!(rotated, vec![2, 1, 3, 0]);
}

#[test]
fn rank_grid_matches_curve_and_rotation() {
    let params = Params::new(options_for(3, 8)).unwrap();
    let offset = params.frame_offset(5);
    let grid = params.gen_frame_ranks(offset);
    assert_eq!(grid.len(), 64);
    for y in 0..8u32 {
        for x in 0..8u32 {
            let h = coords_to_rank(x, y, 3);
            let expected = (h + offset) % 64;
            assert_eq!(grid[(y * 8 + x) as usize], expected);
        }
    }
}

#[test]
fn frame_bytes_gather_rank_colors() {
    let ranks = vec![0u64, 3, 1, 2];
    let colors = vec![
        0u8, 1, 2, 3, //
        10, 11, 12, 13, //
        20, 21, 22, 23, //
        30, 31, 32, 33,
    ];
    let bytes = render_frame_bytes(&ranks, &colors);
    let expected = vec![
        0u8, 1, 2, 3, //
        30, 31, 32, 33, //
        10, 11, 12, 13, //
        20, 21, 22, 23,
    ];
    assert_eq!(bytes, expected);
}

#[test]
fn rank_grid_is_deterministic() {
    let params = Params::new(options_for(3, 8)).unwrap();
    let offset = params.frame_offset(5);
    let first = params.gen_frame_ranks(offset);
    let second = params.gen_frame_ranks(offset);
    assert_eq!(first, second);
}
