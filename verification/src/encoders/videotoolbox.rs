//! Argument validation and pixel formats for videotoolbox style encoders.

use crate::encoders::{dash_arg, dashed_spec, ArgError};
use crate::text::{starts_with_spec, str_eq, str_starts_with, trim_dashes, trim_dashes_spec};
use vstd::prelude::*;
use vstd::string::StringExecFns;

verus! {

/// The option a trimmed videotoolbox argument collides with, if any.
pub open spec fn vt_denied_spec(t: Seq<char>) -> Option<Seq<char>> {
    if starts_with_spec(t, "bitrate"@) {
        Some("bitrate"@)
    } else if starts_with_spec(t, "quality"@) {
        Some("quality"@)
    } else if starts_with_spec(t, "keyint"@) {
        Some("keyint"@)
    } else if starts_with_spec(t, "input-depth"@) {
        Some("input-depth"@)
    } else {
        None
    }
}

/// Accepts an extra videotoolbox argument: leading dashes are trimmed, and
/// options the tool controls are refused.
pub fn parse_vt_arg(arg: &str) -> (r: Result<String, ArgError>)
    ensures
        match r {
            Ok(s) => s@ == trim_dashes_spec(arg@) && vt_denied_spec(trim_dashes_spec(arg@))
                is None,
            Err(e) => vt_denied_spec(trim_dashes_spec(arg@)) == Some(e.denied@),
        },
{
    let trimmed = trim_dashes(arg);
    if str_starts_with(trimmed.as_str(), "bitrate") {
        Err(ArgError { denied: "bitrate" })
    } else if str_starts_with(trimmed.as_str(), "quality") {
        Err(ArgError { denied: "quality" })
    } else if str_starts_with(trimmed.as_str(), "keyint") {
        Err(ArgError { denied: "keyint" })
    } else if str_starts_with(trimmed.as_str(), "input-depth") {
        Err(ArgError { denied: "input-depth" })
    } else {
        Ok(trimmed)
    }
}

/// Accepts an extra ffmpeg encoder argument: a dash is prefixed when
/// missing.
pub fn parse_enc_arg(arg: &str) -> (r: Result<String, ArgError>)
    ensures
        r matches Ok(s) && s@ == dashed_spec(arg@),
{
    Ok(dash_arg(arg))
}

/// Pixel formats the videotoolbox encoders accept, ordered by ascending
/// quality.
#[derive(Clone, Copy, Debug, PartialEq, Eq, PartialOrd, Ord, Hash)]
pub enum VTPixelFormat {
    Yuv420p,
    P010le,
}

impl VTPixelFormat {
    /// The ffmpeg name of this pixel format.
    pub open spec fn as_str_spec(self) -> Seq<char> {
        match self {
            VTPixelFormat::Yuv420p => "yuv420p"@,
            VTPixelFormat::P010le => "p010le"@,
        }
    }

    /// Returns the ffmpeg name of this pixel format.
    pub fn as_str(self) -> (r: &'static str)
        ensures
            r@ == self.as_str_spec(),
    {
        match self {
            VTPixelFormat::Yuv420p => "yuv420p",
            VTPixelFormat::P010le => "p010le",
        }
    }

    /// Parses an ffmpeg pixel format name.
    pub fn try_from(value: &str) -> (r: Result<VTPixelFormat, ()>)
        ensures
            match r {
                Ok(p) => value@ == p.as_str_spec(),
                Err(_) => value@ != VTPixelFormat::Yuv420p.as_str_spec() && value@
                    != VTPixelFormat::P010le.as_str_spec(),
            },
    {
        if str_eq(value, "yuv420p") {
            Ok(VTPixelFormat::Yuv420p)
        } else if str_eq(value, "p010le") {
            Ok(VTPixelFormat::P010le)
        } else {
            Err(())
        }
    }
}

} // verus!
