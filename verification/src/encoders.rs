//! Per-encoder argument validation: extra encoder arguments are trimmed,
//! dash-prefixed, and checked against the options the tool itself controls.

pub mod svtav1;
pub mod videotoolbox;

use vstd::prelude::*;
use vstd::string::StrSliceExecFns;
use vstd::string::StringExecFns;

verus! {

/// An encoder argument that collides with an option the tool controls.
#[derive(Clone, Copy, Debug)]
pub struct ArgError {
    /// The option name the argument collided with.
    pub denied: &'static str,
}

/// `s` with a leading dash added when it has none.
pub open spec fn dashed_spec(s: Seq<char>) -> Seq<char> {
    if s.len() > 0 && s[0] == '-' {
        s
    } else {
        seq!['-'] + s
    }
}

/// Prefixes `arg` with a dash unless it already starts with one.
pub(crate) fn dash_arg(arg: &str) -> (r: String)
    ensures
        r@ == dashed_spec(arg@),
{
    let len = arg.unicode_len();
    if len > 0 && arg.get_char(0) == '-' {
        arg.to_owned()
    } else {
        let mut out = String::from_str("-");
        proof {
            reveal_strlit("-");
            assert(out@ =~= seq!['-']);
        }
        out.append(arg);
        proof {
            assert(out@ =~= dashed_spec(arg@));
        }
        out
    }
}

} // verus!
