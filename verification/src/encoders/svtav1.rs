//! Argument validation for svt-av1 style encoders.

use crate::encoders::{dash_arg, dashed_spec, ArgError};
use crate::text::{starts_with_spec, str_starts_with, trim_dashes, trim_dashes_spec};
use vstd::prelude::*;
use vstd::string::StringExecFns;

verus! {

/// The option a trimmed svt-av1 argument collides with, if any; options the
/// tool sets itself cannot be overridden here.
pub open spec fn svt_denied_spec(t: Seq<char>) -> Option<Seq<char>> {
    if starts_with_spec(t, "crf"@) {
        Some("crf"@)
    } else if starts_with_spec(t, "preset"@) {
        Some("preset"@)
    } else if starts_with_spec(t, "keyint"@) {
        Some("keyint"@)
    } else if starts_with_spec(t, "scd"@) {
        Some("scd"@)
    } else if starts_with_spec(t, "input-depth"@) {
        Some("input-depth"@)
    } else {
        None
    }
}

/// Accepts an extra svt-av1 argument: leading dashes are trimmed, and
/// options the tool controls are refused.
pub fn parse_svt_arg(arg: &str) -> (r: Result<String, ArgError>)
    ensures
        match r {
            Ok(s) => s@ == trim_dashes_spec(arg@) && svt_denied_spec(trim_dashes_spec(arg@))
                is None,
            Err(e) => svt_denied_spec(trim_dashes_spec(arg@)) == Some(e.denied@),
        },
{
    let trimmed = trim_dashes(arg);
    if str_starts_with(trimmed.as_str(), "crf") {
        Err(ArgError { denied: "crf" })
    } else if str_starts_with(trimmed.as_str(), "preset") {
        Err(ArgError { denied: "preset" })
    } else if str_starts_with(trimmed.as_str(), "keyint") {
        Err(ArgError { denied: "keyint" })
    } else if str_starts_with(trimmed.as_str(), "scd") {
        Err(ArgError { denied: "scd" })
    } else if str_starts_with(trimmed.as_str(), "input-depth") {
        Err(ArgError { denied: "input-depth" })
    } else {
        Ok(trimmed)
    }
}

/// Accepts an extra ffmpeg encoder argument: a dash is prefixed when
/// missing, and `svtav1-params` is refused — it has a dedicated option.
pub fn parse_enc_arg(arg: &str) -> (r: Result<String, ArgError>)
    ensures
        match r {
            Ok(s) => s@ == dashed_spec(arg@) && !starts_with_spec(
                dashed_spec(arg@),
                "-svtav1-params"@,
            ),
            Err(e) => starts_with_spec(dashed_spec(arg@), "-svtav1-params"@) && e.denied@
                == "svtav1-params"@,
        },
{
    let dashed = dash_arg(arg);
    if str_starts_with(dashed.as_str(), "-svtav1-params") {
        Err(ArgError { denied: "svtav1-params" })
    } else {
        Ok(dashed)
    }
}

} // verus!
