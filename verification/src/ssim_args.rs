//! SSIM analysis options and the ffmpeg `lavfi` filter graph they produce:
//! scaling decisions, model selection from user arguments, and the full
//! filter string builder.

use crate::text::{
    contains_spec, dec_str, ends_with_spec, find_char, first_index_of, i64_to_string, int_str,
    parse_u32, parse_u32_spec, str_contains, str_ends_with, str_eq, u64_to_string,
};
use vstd::prelude::*;
use vstd::string::StrSliceExecFns;
use vstd::string::StringExecFns;

verus! {

/// Pixel formats the analysis converts both streams to.
#[derive(Clone, Copy, Debug, PartialEq, Eq, PartialOrd, Ord, Hash)]
pub enum PixelFormat {
    Yuv420p,
    Yuv420p10le,
    Yuv444p10le,
}

impl PixelFormat {
    /// The ffmpeg name of this pixel format.
    pub open spec fn as_str_spec(self) -> Seq<char> {
        match self {
            PixelFormat::Yuv420p => "yuv420p"@,
            PixelFormat::Yuv420p10le => "yuv420p10le"@,
            PixelFormat::Yuv444p10le => "yuv444p10le"@,
        }
    }

    /// Returns the ffmpeg name of this pixel format.
    pub fn as_str(self) -> (r: &'static str)
        ensures
            r@ == self.as_str_spec(),
    {
        match self {
            PixelFormat::Yuv420p => "yuv420p",
            PixelFormat::Yuv420p10le => "yuv420p10le",
            PixelFormat::Yuv444p10le => "yuv444p10le",
        }
    }
}

/// Video resolution scaling to use in the analysis.
#[derive(Clone, Copy, Debug, PartialEq, Eq, Hash)]
pub enum SsimScale {
    Off,
    Auto,
    Custom { width: u32, height: u32 },
}

impl SsimScale {
    /// The scale as its argument text: `none`, `auto` or `WxH`.
    pub open spec fn display_spec(self) -> Seq<char> {
        match self {
            SsimScale::Off => "none"@,
            SsimScale::Auto => "auto"@,
            SsimScale::Custom { width, height } => dec_str(width as nat) + "x"@ + dec_str(
                height as nat,
            ),
        }
    }

    /// Renders the scale as its argument text.
    pub fn display(&self) -> (r: String)
        ensures
            r@ == self.display_spec(),
    {
        match *self {
            SsimScale::Off => "none".to_owned(),
            SsimScale::Auto => "auto".to_owned(),
            SsimScale::Custom { width, height } => {
                let mut out = u64_to_string(width as u64);
                out.append("x");
                let h = u64_to_string(height as u64);
                out.append(h.as_str());
                proof {
                    assert(out@ =~= self.display_spec());
                }
                out
            },
        }
    }
}

/// Which SSIM model the arguments imply.
#[derive(Clone, Copy, Debug, PartialEq, Eq, Hash)]
pub enum SsimModel {
    /// Default 1080p model.
    Ssim1K,
    /// 4k model.
    Ssim4K,
    /// Some other user specified model.
    Custom,
}

impl Default for SsimModel {
    fn default() -> (r: Self)
        ensures
            r == SsimModel::Ssim1K,
    {
        SsimModel::Ssim1K
    }
}

/// Common ssim options: extra `ssim` filter arguments and the scaling rule.
#[derive(Clone, Debug)]
pub struct Ssim {
    /// Additional ssim filter argument(s), e.g. `stats_file=stats.log`.
    pub ssim_args: Vec<String>,
    /// Video resolution scale to use in the analysis.
    pub ssim_scale: SsimScale,
}

/// Accepts any extra ssim filter argument unchanged.
pub fn parse_ssim_arg(arg: &str) -> (r: String)
    ensures
        r@ == arg@,
{
    arg.to_owned()
}

/// A scale argument that is neither a keyword nor a `WxH` pair.
#[derive(Clone, Copy, Debug)]
pub struct ScaleParseError;

/// What `parse_ssim_scale` yields: the keywords, or a `WxH` pair split at
/// the first `x` with both sides parsing as `u32`.
pub open spec fn parse_ssim_scale_spec(s: Seq<char>) -> Option<SsimScale> {
    if s == "none"@ {
        Some(SsimScale::Off)
    } else if s == "auto"@ {
        Some(SsimScale::Auto)
    } else {
        let i = first_index_of(s, 'x');
        if i < 0 {
            None
        } else {
            match (parse_u32_spec(s.subrange(0, i)), parse_u32_spec(
                s.subrange(i + 1, s.len() as int),
            )) {
                (Some(width), Some(height)) => Some(SsimScale::Custom { width, height }),
                _ => None,
            }
        }
    }
}

/// Parses a scale argument: `none`, `auto`, or `WxH`.
pub fn parse_ssim_scale(vs: &str) -> (r: Result<SsimScale, ScaleParseError>)
    ensures
        match r {
            Ok(sc) => parse_ssim_scale_spec(vs@) == Some(sc),
            Err(_) => parse_ssim_scale_spec(vs@) is None,
        },
{
    if str_eq(vs, "none") {
        return Ok(SsimScale::Off);
    }
    if str_eq(vs, "auto") {
        return Ok(SsimScale::Auto);
    }
    let len = vs.unicode_len();
    match find_char(vs, 'x') {
        None => Err(ScaleParseError),
        Some(i) => {
            let w_str = vs.substring_char(0, i);
            let h_str = vs.substring_char(i + 1, len);
            match (parse_u32(w_str), parse_u32(h_str)) {
                (Some(width), Some(height)) => Ok(SsimScale::Custom { width, height }),
                _ => Err(ScaleParseError),
            }
        },
    }
}

/// The smallest ffmpeg `(w, h)` scale pair meeting at least one of the
/// target bounds: scale vertically when the height is proportionally
/// further from its target, else horizontally.
pub open spec fn minimally_scale_spec(from: (u32, u32), target: (u32, u32)) -> (i64, i64) {
    if from.1 * target.0 > from.0 * target.1 {
        (-1i64, target.1 as i64)
    } else {
        (target.0 as i64, -1i64)
    }
}

/// Return the smallest ffmpeg vf `(w, h)` scale values so that at least one
/// of the `target_w` or `target_h` bounds are met.
pub fn minimally_scale(from: (u32, u32), target: (u32, u32)) -> (r: (i64, i64))
    ensures
        r == minimally_scale_spec(from, target),
{
    let (from_w, from_h) = from;
    let (target_w, target_h) = target;
    // Comparing h_factor = from_h / target_h against w_factor =
    // from_w / target_w, by cross-multiplication.
    proof {
        assert((from_h as nat) * (target_w as nat) <= 0xffff_ffff * 0xffff_ffff)
            by (nonlinear_arith)
            requires
                from_h <= 0xffff_ffff,
                target_w <= 0xffff_ffff,
        ;
        assert((from_w as nat) * (target_h as nat) <= 0xffff_ffff * 0xffff_ffff)
            by (nonlinear_arith)
            requires
                from_w <= 0xffff_ffff,
                target_h <= 0xffff_ffff,
        ;
    }
    if (from_h as u64) * (target_w as u64) > (from_w as u64) * (target_h as u64) {
        (-1, target_h as i64)
    } else {
        (target_w as i64, -1)
    }
}

/// The arguments mentioning a model, kept in order.
pub open spec fn filter_model_args(args: Seq<Seq<char>>) -> Seq<Seq<char>>
    decreases args.len(),
{
    if args.len() == 0 {
        Seq::empty()
    } else {
        let rest = filter_model_args(args.drop_last());
        if contains_spec(args.last(), "model"@) {
            rest.push(args.last())
        } else {
            rest
        }
    }
}

/// How one model argument is classified.
pub open spec fn classify_model_spec(v: Seq<char>) -> SsimModel {
    if ends_with_spec(v, "=1080"@) {
        SsimModel::Ssim1K
    } else if ends_with_spec(v, "=4k"@) {
        SsimModel::Ssim4K
    } else {
        SsimModel::Custom
    }
}

/// The model the arguments imply: none mentioned, exactly one classified,
/// or several treated as custom.
pub open spec fn from_args_spec(args: Seq<Seq<char>>) -> Option<SsimModel> {
    let f = filter_model_args(args);
    if f.len() == 0 {
        None
    } else if f.len() == 1 {
        Some(classify_model_spec(f[0]))
    } else {
        Some(SsimModel::Custom)
    }
}

impl SsimModel {
    /// Scans the arguments for a model selection.
    pub fn from_args(args: &Vec<String>) -> (r: Option<SsimModel>)
        ensures
            r == from_args_spec(args.deep_view()),
    {
        let ghost dv = args.deep_view();
        let mut count: usize = 0;
        let mut first: Option<usize> = None;
        let mut k: usize = 0;
        while k < args.len()
            invariant
                k <= args@.len(),
                dv == args.deep_view(),
                dv.len() == args@.len(),
                forall|i: int| 0 <= i < dv.len() ==> #[trigger] dv[i] == args@[i]@,
                count <= k,
                count == filter_model_args(dv.take(k as int)).len(),
                match first {
                    Some(fi) => {
                        &&& fi < k
                        &&& count >= 1
                        &&& args@[fi as int]@ == filter_model_args(dv.take(k as int))[0]
                    },
                    None => count == 0,
                },
            decreases args@.len() - k,
        {
            proof {
                assert(dv.take(k + 1).drop_last() =~= dv.take(k as int));
                assert(dv.take(k + 1).last() == dv[k as int]);
            }
            if str_contains(args[k].as_str(), "model") {
                if count == 0 {
                    first = Some(k);
                }
                count = count + 1;
            }
            k = k + 1;
        }
        proof {
            assert(dv.take(args@.len() as int) =~= dv);
        }
        if count == 0 {
            None
        } else if count == 1 {
            let fi = match first {
                Some(fi) => fi,
                None => 0,
            };
            let v = &args[fi];
            if str_ends_with(v.as_str(), "=1080") {
                Some(SsimModel::Ssim1K)
            } else if str_ends_with(v.as_str(), "=4k") {
                Some(SsimModel::Ssim4K)
            } else {
                Some(SsimModel::Custom)
            }
        } else {
            Some(SsimModel::Custom)
        }
    }
}

/// The scaling decision: automatic upscaling toward the model's native
/// resolution, an explicit custom target, or none.
pub open spec fn vf_scale_spec(scale: SsimScale, model: SsimModel, distorted_res: Option<(u32, u32)>) -> Option<(i64, i64)> {
    match (scale, distorted_res) {
        (SsimScale::Auto, Some((w, h))) => match model {
            SsimModel::Ssim1K => if w < 1728 && h < 972 {
                Some(minimally_scale_spec((w, h), (1920, 1080)))
            } else {
                None
            },
            SsimModel::Ssim4K => if w < 3456 && h < 1944 {
                Some(minimally_scale_spec((w, h), (3840, 2160)))
            } else {
                None
            },
            _ => None,
        },
        (SsimScale::Custom { width, height }, Some((w, h))) => Some(
            minimally_scale_spec((w, h), (width, height)),
        ),
        (SsimScale::Custom { width, height }, None) => Some((width as i64, height as i64)),
        _ => None,
    }
}

/// The arguments joined with `:` separators.
pub open spec fn join_colon_spec(args: Seq<Seq<char>>) -> Seq<char>
    decreases args.len(),
{
    if args.len() == 0 {
        Seq::empty()
    } else if args.len() == 1 {
        args[0]
    } else {
        join_colon_spec(args.drop_last()) + ":"@ + args.last()
    }
}

/// Joins the arguments with `:` separators.
fn join_colon(args: &Vec<String>) -> (r: String)
    ensures
        r@ == join_colon_spec(args.deep_view()),
{
    let ghost dv = args.deep_view();
    let mut out = String::new();
    let mut k: usize = 0;
    while k < args.len()
        invariant
            k <= args@.len(),
            dv == args.deep_view(),
            dv.len() == args@.len(),
            forall|i: int| 0 <= i < dv.len() ==> #[trigger] dv[i] == args@[i]@,
            out@ == join_colon_spec(dv.take(k as int)),
        decreases args@.len() - k,
    {
        proof {
            assert(dv.take(k + 1).drop_last() =~= dv.take(k as int));
            assert(dv.take(k + 1).last() == dv[k as int]);
        }
        if k > 0 {
            out.append(":");
            out.append(args[k].as_str());
            proof {
                assert(out@ =~= join_colon_spec(dv.take(k + 1)));
            }
        } else {
            out.append(args[k].as_str());
            proof {
                assert(dv.take(1)[0] == dv[0]);
                assert(out@ =~= join_colon_spec(dv.take(1)));
            }
        }
        k = k + 1;
    }
    proof {
        assert(dv.take(args@.len() as int) =~= dv);
    }
    out
}

/// The reference vfilter fragment: nothing, or the filter with exactly one
/// trailing comma.
pub open spec fn ref_vf_spec(ref_vfilter: Option<Seq<char>>) -> Seq<char> {
    match ref_vfilter {
        None => Seq::empty(),
        Some(vf) => if ends_with_spec(vf, ","@) {
            vf
        } else {
            vf + ","@
        },
    }
}

/// The filter-graph prefix: both streams converted to a common pixel
/// format, optionally scaled, with presentation timestamps synced.
pub open spec fn prefix_spec(scale: Option<(i64, i64)>, pix: PixelFormat, ref_vf: Seq<char>) -> Seq<
    char,
> {
    match scale {
        Some((w, h)) => "[0:v]format="@ + pix.as_str_spec() + ",scale="@ + int_str(w as int)
            + ":"@ + int_str(h as int)
            + ":flags=bicubic,setpts=PTS-STARTPTS[dis];[1:v]format="@ + pix.as_str_spec() + ","@
            + ref_vf + "scale="@ + int_str(w as int) + ":"@ + int_str(h as int)
            + ":flags=bicubic,setpts=PTS-STARTPTS[ref];[dis][ref]"@,
        None => "[0:v]format="@ + pix.as_str_spec() + ",setpts=PTS-STARTPTS[dis];[1:v]format="@
            + pix.as_str_spec() + ","@ + ref_vf + "setpts=PTS-STARTPTS[ref];[dis][ref]"@,
    }
}

/// The model the analysis runs with: user selection first, then the 4k
/// model for high resolutions, then the default.
pub open spec fn effective_model_spec(args: Seq<Seq<char>>, distorted_res: Option<(u32, u32)>) -> SsimModel {
    match from_args_spec(args) {
        Some(m) => m,
        None => match distorted_res {
            Some((w, h)) => if w > 2560 && h > 1440 {
                SsimModel::Ssim4K
            } else {
                SsimModel::Ssim1K
            },
            None => SsimModel::Ssim1K,
        },
    }
}

/// The `ssim` filter invocation: the default stats file when no extra
/// arguments are given, otherwise the joined arguments.
pub open spec fn ssim_filter_spec(args: Seq<Seq<char>>) -> Seq<char> {
    if args.len() == 0 {
        "ssim=stats_file=ssim_stats.log"@
    } else {
        "ssim="@ + join_colon_spec(args)
    }
}

/// The whole `filter_complex` value for the analysis.
pub open spec fn ssim_lavfi_spec(
    args: Seq<Seq<char>>,
    scale: SsimScale,
    distorted_res: Option<(u32, u32)>,
    pix: PixelFormat,
    ref_vfilter: Option<Seq<char>>,
) -> Seq<char> {
    prefix_spec(
        vf_scale_spec(scale, effective_model_spec(args, distorted_res), distorted_res),
        pix,
        ref_vf_spec(ref_vfilter),
    ) + ssim_filter_spec(args)
}

/// An `Option<&str>` as an optional character sequence.
pub open spec fn opt_str_view(o: Option<&str>) -> Option<Seq<char>> {
    match o {
        Some(s) => Some(s@),
        None => None,
    }
}

impl Ssim {
    /// The scale pair the analysis applies, if any.
    pub fn vf_scale(&self, model: SsimModel, distorted_res: Option<(u32, u32)>) -> (r: Option<
        (i64, i64),
    >)
        ensures
            r == vf_scale_spec(self.ssim_scale, model, distorted_res),
    {
        match (self.ssim_scale, distorted_res) {
            (SsimScale::Auto, Some((w, h))) => match model {
                // upscale small resolutions to 1k for use with the 1k model
                SsimModel::Ssim1K if w < 1728 && h < 972 => Some(
                    minimally_scale((w, h), (1920, 1080)),
                ),
                // upscale small resolutions to 4k for use with the 4k model
                SsimModel::Ssim4K if w < 3456 && h < 1944 => Some(
                    minimally_scale((w, h), (3840, 2160)),
                ),
                _ => None,
            },
            (SsimScale::Custom { width, height }, Some((w, h))) => Some(
                minimally_scale((w, h), (width, height)),
            ),
            (SsimScale::Custom { width, height }, None) => Some((width as i64, height as i64)),
            _ => None,
        }
    }

    /// Returns ffmpeg `filter_complex`/`lavfi` value for calculating the
    /// SSIM score.
    #[verifier::rlimit(100)]
    pub fn ffmpeg_lavfi(
        &self,
        distorted_res: Option<(u32, u32)>,
        pix_fmt: PixelFormat,
        ref_vfilter: Option<&str>,
    ) -> (r: String)
        ensures
            r@ == ssim_lavfi_spec(
                self.ssim_args.deep_view(),
                self.ssim_scale,
                distorted_res,
                pix_fmt,
                opt_str_view(ref_vfilter),
            ),
    {
        let joined = join_colon(&self.ssim_args);
        let model0 = SsimModel::from_args(&self.ssim_args);
        let model = match (model0, distorted_res) {
            (Some(m), _) => m,
            (None, Some((w, h))) => if w > 2560 && h > 1440 {
                // for >2k resolutions use the 4k model
                SsimModel::Ssim4K
            } else {
                SsimModel::Ssim1K
            },
            (None, None) => SsimModel::Ssim1K,
        };
        let ref_vf: String = match ref_vfilter {
            None => String::new(),
            Some(vf) => if str_ends_with(vf, ",") {
                vf.to_owned()
            } else {
                let mut s = vf.to_owned();
                s.append(",");
                s
            },
        };
        proof {
            assert(model == effective_model_spec(self.ssim_args.deep_view(), distorted_res));
            assert(ref_vf@ =~= ref_vf_spec(opt_str_view(ref_vfilter)));
        }
        let scale = self.vf_scale(model, distorted_res);
        let ghost spec_prefix = prefix_spec(
            vf_scale_spec(self.ssim_scale, model, distorted_res),
            pix_fmt,
            ref_vf_spec(opt_str_view(ref_vfilter)),
        );
        let mut out = String::new();
        match scale {
            Some((w, h)) => {
                let ws = i64_to_string(w);
                let hs = i64_to_string(h);
                out.append("[0:v]format=");
                out.append(pix_fmt.as_str());
                out.append(",scale=");
                out.append(ws.as_str());
                out.append(":");
                out.append(hs.as_str());
                out.append(":flags=bicubic,setpts=PTS-STARTPTS[dis];[1:v]format=");
                out.append(pix_fmt.as_str());
                out.append(",");
                out.append(ref_vf.as_str());
                out.append("scale=");
                out.append(ws.as_str());
                out.append(":");
                out.append(hs.as_str());
                out.append(":flags=bicubic,setpts=PTS-STARTPTS[ref];[dis][ref]");
                proof {
                    assert(out@ =~= spec_prefix);
                }
            },
            None => {
                out.append("[0:v]format=");
                out.append(pix_fmt.as_str());
                out.append(",setpts=PTS-STARTPTS[dis];[1:v]format=");
                out.append(pix_fmt.as_str());
                out.append(",");
                out.append(ref_vf.as_str());
                out.append("setpts=PTS-STARTPTS[ref];[dis][ref]");
                proof {
                    assert(out@ =~= spec_prefix);
                }
            },
        }
        if self.ssim_args.len() == 0 {
            out.append("ssim=stats_file=ssim_stats.log");
        } else {
            out.append("ssim=");
            out.append(joined.as_str());
        }
        proof {
            assert(out@ =~= ssim_lavfi_spec(
                self.ssim_args.deep_view(),
                self.ssim_scale,
                distorted_res,
                pix_fmt,
                opt_str_view(ref_vfilter),
            ));
        }
        out
    }
}

} // verus!
