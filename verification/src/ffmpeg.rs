//! Small pure helpers around ffmpeg encoder naming: the file pre-extension
//! for a codec, and which preset/crf-like argument each codec takes.

use crate::text::{ends_with_spec, starts_with_spec, str_ends_with, str_eq, str_starts_with};
use vstd::prelude::*;
use vstd::string::StrSliceExecFns;

verus! {

/// The pre-extension for a codec name: well-known `lib*` codecs map to
/// their short names, other `lib*` names lose the prefix, anything else is
/// kept whole.
pub open spec fn pre_extension_name_spec(vcodec: Seq<char>) -> Seq<char> {
    if vcodec == "libsvtav1"@ {
        "av1"@
    } else if vcodec == "libvpx-vp9"@ {
        "vp9"@
    } else if starts_with_spec(vcodec, "lib"@) && vcodec.len() > 3 {
        vcodec.subrange(3, vcodec.len() as int)
    } else {
        vcodec
    }
}

/// The encoded-file pre-extension for a codec name.
pub fn pre_extension_name(vcodec: &str) -> (r: String)
    ensures
        r@ == pre_extension_name_spec(vcodec@),
{
    proof {
        reveal_strlit("lib");
    }
    if str_eq(vcodec, "libsvtav1") {
        "av1".to_owned()
    } else if str_eq(vcodec, "libvpx-vp9") {
        "vp9".to_owned()
    } else if str_starts_with(vcodec, "lib") && vcodec.unicode_len() > 3 {
        let len = vcodec.unicode_len();
        vcodec.substring_char(3, len).to_owned()
    } else {
        vcodec.to_owned()
    }
}

/// The argument a codec takes preset values with, normally `-preset`.
pub open spec fn preset_arg_spec(vcodec: Seq<char>) -> Seq<char> {
    if vcodec == "libaom-av1"@ || vcodec == "libvpx-vp9"@ {
        "-cpu-used"@
    } else if vcodec == "librav1e"@ {
        "-speed"@
    } else {
        "-preset"@
    }
}

/// Arg to use preset values with, normally `-preset`.
pub fn preset_arg(vcodec: &str) -> (r: &'static str)
    ensures
        r@ == preset_arg_spec(vcodec@),
{
    if str_eq(vcodec, "libaom-av1") || str_eq(vcodec, "libvpx-vp9") {
        "-cpu-used"
    } else if str_eq(vcodec, "librav1e") {
        "-speed"
    } else {
        "-preset"
    }
}

/// The crf-like argument a codec takes quality values with.
pub open spec fn crf_arg_spec(vcodec: Seq<char>) -> Seq<char> {
    if vcodec == "librav1e"@ || ends_with_spec(vcodec, "_vaapi"@) {
        "-qp"@
    } else if ends_with_spec(vcodec, "_nvenc"@) {
        "-cq"@
    } else if ends_with_spec(vcodec, "_qsv"@) {
        "-global_quality"@
    } else {
        "-crf"@
    }
}

/// Arg to use crf values with, to support encoders that have no crf.
pub fn crf_arg(vcodec: &str) -> (r: &'static str)
    ensures
        r@ == crf_arg_spec(vcodec@),
{
    if str_eq(vcodec, "librav1e") || str_ends_with(vcodec, "_vaapi") {
        "-qp"
    } else if str_ends_with(vcodec, "_nvenc") {
        "-cq"
    } else if str_ends_with(vcodec, "_qsv") {
        "-global_quality"
    } else {
        "-crf"
    }
}

} // verus!
