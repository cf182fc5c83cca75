use ab_av1::ssim_args::{PixelFormat, Ssim, SsimScale};

#[test]
fn ssim_lavfi() {
    let ssim = Ssim {
        ssim_args: vec![],
        ssim_scale: SsimScale::Auto,
    };
    assert_eq!(
        ssim.ffmpeg_lavfi(None, PixelFormat::Yuv420p, Some("scale=1280:-1,fps=24")),
        "[0:v]format=yuv420p,setpts=PTS-STARTPTS[dis];\
         [1:v]format=yuv420p,scale=1280:-1,fps=24,setpts=PTS-STARTPTS[ref];\
         [dis][ref]ssim=stats_file=ssim_stats.log"
    );
}

#[test]
fn ssim_lavfi_default() {
    let ssim = Ssim {
        ssim_args: vec![],
        ssim_scale: SsimScale::Auto,
    };
    let expected = format!(
        "[0:v]format=yuv420p10le,setpts=PTS-STARTPTS[dis];\
         [1:v]format=yuv420p10le,setpts=PTS-STARTPTS[ref];\
         [dis][ref]ssim=stats_file=ssim_stats.log"
    );
    assert_eq!(
        ssim.ffmpeg_lavfi(None, PixelFormat::Yuv420p10le, None),
        expected
    );
}

#[test]
fn ssim_lavfi_include_stats_file() {
    let ssim = Ssim {
        ssim_args: vec!["stats_file=output.log".into()],
        ssim_scale: SsimScale::Auto,
    };
    let expected = format!(
        "[0:v]format=yuv420p,setpts=PTS-STARTPTS[dis];\
         [1:v]format=yuv420p,setpts=PTS-STARTPTS[ref];\
         [dis][ref]ssim=stats_file=output.log"
    );
    assert_eq!(ssim.ffmpeg_lavfi(None, PixelFormat::Yuv420p, None), expected);
}

/// Low resolution videos should be upscaled to 1080p
#[test]
fn ssim_lavfi_small_width() {
    let ssim = Ssim {
        ssim_args: vec![],
        ssim_scale: SsimScale::Auto,
    };
    assert_eq!(
        ssim.ffmpeg_lavfi(Some((1280, 720)), PixelFormat::Yuv420p, None),
        "[0:v]format=yuv420p,scale=1920:-1:flags=bicubic,setpts=PTS-STARTPTS[dis];\
         [1:v]format=yuv420p,scale=1920:-1:flags=bicubic,setpts=PTS-STARTPTS[ref];\
         [dis][ref]ssim=stats_file=ssim_stats.log"
    );
}

/// 4k videos should use 4k model
#[test]
fn ssim_lavfi_4k() {
    let ssim = Ssim {
        ssim_args: vec![],
        ssim_scale: SsimScale::Auto,
    };
    assert_eq!(
        ssim.ffmpeg_lavfi(Some((3840, 2160)), PixelFormat::Yuv420p, None),
        "[0:v]format=yuv420p,setpts=PTS-STARTPTS[dis];\
         [1:v]format=yuv420p,setpts=PTS-STARTPTS[ref];\
         [dis][ref]ssim=stats_file=ssim_stats.log"
    );
}

/// >2k videos should be upscaled to 4k & use 4k model
#[test]
fn ssim_lavfi_3k_upscale_to_4k() {
    let ssim = Ssim {
        ssim_args: vec![],
        ssim_scale: SsimScale::Auto,
    };
    assert_eq!(
        ssim.ffmpeg_lavfi(Some((3008, 1692)), PixelFormat::Yuv420p, None),
        "[0:v]format=yuv420p,scale=3840:-1:flags=bicubic,setpts=PTS-STARTPTS[dis];\
         [1:v]format=yuv420p,scale=3840:-1:flags=bicubic,setpts=PTS-STARTPTS[ref];\
         [dis][ref]ssim=stats_file=ssim_stats.log"
    );
}

#[test]
fn ssim_lavfi_custom_model_and_width() {
    let ssim = Ssim {
        ssim_args: vec![],
        // if specified just do it
        ssim_scale: SsimScale::Custom {
            width: 123,
            height: 720,
        },
    };
    assert_eq!(
        ssim.ffmpeg_lavfi(Some((1280, 720)), PixelFormat::Yuv420p, None),
        "[0:v]format=yuv420p,scale=123:-1:flags=bicubic,setpts=PTS-STARTPTS[dis];\
         [1:v]format=yuv420p,scale=123:-1:flags=bicubic,setpts=PTS-STARTPTS[ref];\
         [dis][ref]ssim=stats_file=ssim_stats.log"
    );
}

#[test]
fn ssim_lavfi_1080p() {
    let ssim = Ssim {
        ssim_args: vec![],
        ssim_scale: SsimScale::Auto,
    };
    assert_eq!(
        ssim.ffmpeg_lavfi(Some((1920, 1080)), PixelFormat::Yuv420p, None),
        "[0:v]format=yuv420p,setpts=PTS-STARTPTS[dis];\
         [1:v]format=yuv420p,setpts=PTS-STARTPTS[ref];\
         [dis][ref]ssim=stats_file=ssim_stats.log"
    );
}
