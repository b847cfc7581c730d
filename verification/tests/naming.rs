use hilbert_anim::color::ColorFunction;
use hilbert_anim::output::classify_output;
use hilbert_anim::output::extension_of;
use hilbert_anim::output::OutputKind;
use hilbert_anim::params::Options;
use hilbert_anim::params::Params;
use hilbert_anim::text::frame_file_name;
use hilbert_anim::text::u64_to_string;

#[test]
fn color_function_names_resolve() {
    assert_eq!(ColorFunction::from_name("oklab_hue"), Some(ColorFunction::OklabHue));
    assert_eq!(
        ColorFunction::from_name("oklab_hue_sine_value"),
        Some(ColorFunction::OklabHueSineValue)
    );
    assert_eq!(ColorFunction::from_name("square_value"), Some(ColorFunction::SquareValue));
    assert_eq!(
        ColorFunction::from_name("square_linsrgb_channels"),
        Some(ColorFunction::SquareLinsrgbChannels)
    );
}

#[test]
fn unknown_color_function_is_rejected() {
    assert_eq!(ColorFunction::from_name("sepia"), None);
    assert_eq!(ColorFunction::from_name(""), None);
    assert_eq!(ColorFunction::from_name("oklab_hue "), None);
}

#[test]
fn decimal_rendering() {
    assert_eq!(u64_to_string(0), "0");
    assert_eq!(u64_to_string(7), "7");
    assert_eq!(u64_to_string(30), "30");
    assert_eq!(u64_to_string(12345), "12345");
    assert_eq!(u64_to_string(u64::MAX), "18446744073709551615");
}

#[test]
fn frame_file_names_are_zero_padded() {
    assert_eq!(frame_file_name(0), "frame_00000.png");
    assert_eq!(frame_file_name(7), "frame_00007.png");
    assert_eq!(frame_file_name(123), "frame_00123.png");
    assert_eq!(frame_file_name(99999), "frame_99999.png");
}

#[test]
fn extensions_are_extracted() {
    assert_eq!(extension_of("out.gif"), Some("gif".to_owned()));
    assert_eq!(extension_of("dir/out.webp"), Some("webp".to_owned()));
    assert_eq!(extension_of("a.b/c"), None);
    assert_eq!(extension_of("archive.tar.gz"), Some("gz".to_owned()));
    assert_eq!(extension_of(".hidden"), None);
    assert_eq!(extension_of("plain"), None);
    assert_eq!(extension_of("trailing."), Some("".to_owned()));
    assert_eq!(extension_of("movie.gif/"), Some("gif".to_owned()));
    assert_eq!(extension_of("a/b.webp//"), Some("webp".to_owned()));
    assert_eq!(extension_of("dir///"), None);
}

#[test]
fn output_kinds_follow_the_extension() {
    assert_eq!(classify_output("out.gif"), OutputKind::Gif);
    assert_eq!(classify_output("out.webp"), OutputKind::Webp);
    assert_eq!(classify_output("movie/out.webm"), OutputKind::Webm);
    assert_eq!(classify_output("frames"), OutputKind::Frames);
    assert_eq!(classify_output("out.xyz"), OutputKind::Unrecognized);
    assert_eq!(classify_output("out."), OutputKind::Unrecognized);
    assert_eq!(classify_output("movie.gif/"), OutputKind::Gif);
}

#[test]
fn mux_arguments_with_bitrate() {
    let params = Params::new(Options {
        order: 2,
        function: "oklab_hue".to_owned(),
        frames: 4,
        framerate: 30,
        loops: 2,
        bitrate: Some("1M".to_owned()),
        filename: "out.webm".to_owned(),
    })
    .unwrap();
    let args = params.mux_args("_frames_out");
    let expected = vec![
        "-y",
        "-framerate",
        "30",
        "-stream_loop",
        "1",
        "-pattern_type",
        "glob",
        "-i",
        "_frames_out/*.png",
        "-c:v",
        "libvpx-vp9",
        "-b:v",
        "1M",
        "out.webm",
    ];
    assert_eq!(args, expected);
}

#[test]
fn mux_arguments_without_bitrate() {
    let params = Params::new(Options {
        order: 2,
        function: "oklab_hue".to_owned(),
        frames: 4,
        framerate: 24,
        loops: 1,
        bitrate: None,
        filename: "clip.webm".to_owned(),
    })
    .unwrap();
    let args = params.mux_args("_frames_out");
    let expected = vec![
        "-y",
        "-framerate",
        "24",
        "-stream_loop",
        "0",
        "-pattern_type",
        "glob",
        "-i",
        "_frames_out/*.png",
        "-c:v",
        "libvpx-vp9",
        "clip.webm",
    ];
    assert_eq!(args, expected);
}
