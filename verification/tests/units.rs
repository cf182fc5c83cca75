use ab_av1::encoders::svtav1;
use ab_av1::encoders::videotoolbox::{self, VTPixelFormat};
use ab_av1::ffmpeg::{crf_arg, pre_extension_name, preset_arg};
use ab_av1::progress::guess_progress;
use ab_av1::sample::{Measurement, Sample};
use ab_av1::ssim_args::{minimally_scale, parse_ssim_scale, SsimModel, SsimScale};
use ab_av1::transform::Transform;

#[test]
fn transform_round_trips_over_the_domain() {
    for v in [1u64, 2, 7, 100, 550, 4096, 1_000_000] {
        assert_eq!(Transform::Linear.inverse(Transform::Linear.forward(v)), v);
    }
    for v in [1u64, 2, 55, 255, 1000, 1_048_576] {
        assert_eq!(Transform::Sqrt.inverse(Transform::Sqrt.forward(v)), v);
    }
    for v in [1u64, 2, 10, 39, 40] {
        assert_eq!(Transform::Ln.inverse(Transform::Ln.forward(v)), v);
    }
}

#[test]
fn transform_forward_values() {
    assert_eq!(Transform::Linear.forward(550), 550);
    assert_eq!(Transform::Sqrt.forward(70), 4900);
    assert_eq!(Transform::Ln.forward(10), 1024);
    assert_eq!(Transform::Sqrt.inverse(5000), 70);
    assert_eq!(Transform::Ln.inverse(1025), 10);
}

#[test]
fn transform_forward_is_strictly_monotonic() {
    let pairs = [(1u64, 2u64), (9, 10), (99, 100), (554, 555)];
    for t in [Transform::Linear, Transform::Sqrt] {
        for (a, b) in pairs {
            assert!(t.forward(a) < t.forward(b), "{t:?} not increasing at {a}");
        }
    }
    for (a, b) in [(1u64, 2u64), (10, 11), (39, 40)] {
        assert!(Transform::Ln.forward(a) < Transform::Ln.forward(b));
    }
}

#[test]
fn quantization_is_idempotent() {
    for (v, inc) in [(12345u64, 100u64), (550, 100), (7, 3), (0, 5), (999, 1)] {
        let once = Sample::mod_inc(v, inc);
        assert_eq!(Sample::mod_inc(once, inc), once);
    }
    assert_eq!(Sample::mod_inc(12345, 100), 12300);
    assert_eq!(Sample::mod_inc(550, 100), 500);
}

#[test]
fn sample_set_q_snapshots_previous_trial() {
    let mut sample = Sample::new(Measurement::new(), 100, 1000, 100, Transform::Linear);
    assert_eq!(sample.q, 550);
    assert_eq!(sample.val, 500);
    assert_eq!(sample.br(), 500);
    sample.set_q(700);
    assert_eq!(sample.q, 700);
    assert_eq!(sample.val, 700);
    assert_eq!(sample.br(), 500);
    assert_eq!(sample.cq(), 500);
    assert_eq!(sample.prev_q, 550);
}

#[test]
fn lerp_lands_strictly_inside_the_bracket() {
    let mut cursor = Sample::new(Measurement::new(), 100, 1000, 1, Transform::Linear);
    cursor.enc = Measurement {
        score: 96_000,
        size_ratio: 50_000,
        predicted_size: 0,
        predicted_duration: 0,
        from_cache: false,
    };
    let worse = Sample {
        q: 100,
        val: 100,
        enc: Measurement {
            score: 90_000,
            ..cursor.enc
        },
        ..cursor
    };
    let worse_q = worse.q;
    let better_q = cursor.q;
    cursor.vmaf_lerp_q(95_000, Some(&worse), None);
    assert!(worse_q + 1 <= cursor.q && cursor.q <= better_q - 1);
    // Exact interpolation: (100*1000 + 550*5000) / 6000 == 475.
    assert_eq!(cursor.q, 475);
}

#[test]
fn progress_guess_values() {
    assert_eq!(guess_progress(1, 0, false), 0);
    assert_eq!(guess_progress(1, 500, false), 125_000_000);
    assert_eq!(guess_progress(4, 0, false), 750_000_000);
    assert_eq!(guess_progress(2, 0, true), 166_666_666);
    assert_eq!(guess_progress(7, 0, true), 857_142_857);
}

#[test]
fn ssim_scale_parsing() {
    assert!(matches!(parse_ssim_scale("none"), Ok(SsimScale::Off)));
    assert!(matches!(parse_ssim_scale("auto"), Ok(SsimScale::Auto)));
    assert!(matches!(
        parse_ssim_scale("1920x1080"),
        Ok(SsimScale::Custom {
            width: 1920,
            height: 1080
        })
    ));
    assert!(parse_ssim_scale("1920by1080").is_err());
    assert!(parse_ssim_scale("x1080").is_err());
    assert!(parse_ssim_scale("1920x").is_err());
    assert!(parse_ssim_scale("99999999999x1080").is_err());
}

#[test]
fn minimal_scaling_picks_the_tighter_axis() {
    assert_eq!(minimally_scale((1280, 720), (1920, 1080)), (1920, -1));
    assert_eq!(minimally_scale((1280, 720), (123, 720)), (123, -1));
    assert_eq!(minimally_scale((100, 720), (1920, 1080)), (-1, 1080));
}

#[test]
fn model_selection_from_args() {
    assert_eq!(SsimModel::from_args(&vec![]), None);
    assert_eq!(
        SsimModel::from_args(&vec!["model=version=1080".to_string()]),
        Some(SsimModel::Ssim1K)
    );
    assert_eq!(
        SsimModel::from_args(&vec!["model=version=4k".to_string()]),
        Some(SsimModel::Ssim4K)
    );
    assert_eq!(
        SsimModel::from_args(&vec!["model=path=custom".to_string()]),
        Some(SsimModel::Custom)
    );
    assert_eq!(
        SsimModel::from_args(&vec![
            "model=version=1080".to_string(),
            "model=version=4k".to_string()
        ]),
        Some(SsimModel::Custom)
    );
    assert_eq!(
        SsimModel::from_args(&vec!["stats_file=out.log".to_string()]),
        None
    );
}

#[test]
fn svt_args_are_validated() {
    assert_eq!(svtav1::parse_svt_arg("film-grain=8").unwrap(), "film-grain=8");
    assert_eq!(svtav1::parse_svt_arg("--mbr=2000").unwrap(), "mbr=2000");
    assert!(svtav1::parse_svt_arg("crf=30").is_err());
    assert!(svtav1::parse_svt_arg("--preset=4").is_err());
    assert!(svtav1::parse_svt_arg("scd=1").is_err());
    assert_eq!(
        svtav1::parse_enc_arg("x265-params=lossless=1").unwrap(),
        "-x265-params=lossless=1"
    );
    assert!(svtav1::parse_enc_arg("svtav1-params=rc=1").is_err());
    assert!(svtav1::parse_enc_arg("-svtav1-params=rc=1").is_err());
}

#[test]
fn vt_args_are_validated() {
    assert_eq!(
        videotoolbox::parse_vt_arg("allow_sw=1").unwrap(),
        "allow_sw=1"
    );
    assert!(videotoolbox::parse_vt_arg("bitrate=2000").is_err());
    assert!(videotoolbox::parse_vt_arg("--quality=50").is_err());
    assert_eq!(videotoolbox::parse_enc_arg("r=1").unwrap(), "-r=1");
    assert_eq!(videotoolbox::parse_enc_arg("-r").unwrap(), "-r");
}

#[test]
fn vt_pixel_format_names() {
    assert_eq!(VTPixelFormat::Yuv420p.as_str(), "yuv420p");
    assert_eq!(VTPixelFormat::P010le.as_str(), "p010le");
    assert_eq!(
        VTPixelFormat::try_from("yuv420p").unwrap(),
        VTPixelFormat::Yuv420p
    );
    assert_eq!(
        VTPixelFormat::try_from("p010le").unwrap(),
        VTPixelFormat::P010le
    );
    assert!(VTPixelFormat::try_from("rgb24").is_err());
}

#[test]
fn codec_naming_helpers() {
    assert_eq!(pre_extension_name("libsvtav1"), "av1");
    assert_eq!(pre_extension_name("libvpx-vp9"), "vp9");
    assert_eq!(pre_extension_name("libx264"), "x264");
    assert_eq!(pre_extension_name("hevc_videotoolbox"), "hevc_videotoolbox");
    assert_eq!(pre_extension_name("lib"), "lib");
    assert_eq!(preset_arg("libaom-av1"), "-cpu-used");
    assert_eq!(preset_arg("librav1e"), "-speed");
    assert_eq!(preset_arg("libsvtav1"), "-preset");
    assert_eq!(crf_arg("librav1e"), "-qp");
    assert_eq!(crf_arg("h264_vaapi"), "-qp");
    assert_eq!(crf_arg("hevc_nvenc"), "-cq");
    assert_eq!(crf_arg("hevc_qsv"), "-global_quality");
    assert_eq!(crf_arg("libx264"), "-crf");
}
