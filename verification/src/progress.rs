//! Heuristic completion estimate for a progress indicator: maps the
//! iteration count and the in-flight oracle's fractional progress to a
//! position on a fixed-length bar. Purely cosmetic — it never gates
//! termination.

use vstd::arithmetic::div_mod::{lemma_div_is_ordered, lemma_div_multiples_vanish};
use vstd::prelude::*;

verus! {

/// Length of the progress bar the estimate is scaled to.
pub const BAR_LEN: u64 = 1_000_000_000;

/// Largest iteration the estimator accepts; far beyond any terminating
/// search, and small enough that the scaling arithmetic stays in `u64`.
pub const MAX_PROGRESS_ITERATION: u64 = 1_000_000;

/// The guessed total number of iterations: six for a thorough search still
/// under way, four early on, otherwise the next iteration is assumed last.
pub open spec fn total_runs_guess_spec(iteration: nat, thorough: bool) -> nat {
    if thorough && iteration < 7 {
        6
    } else if iteration < 5 {
        4
    } else {
        iteration
    }
}

/// Completed iterations plus in-flight progress, as a position on the bar.
pub open spec fn guess_progress_spec(
    iteration: nat,
    sample_progress_milli: nat,
    thorough: bool,
) -> nat {
    (((iteration - 1) * 1000 + sample_progress_milli) * BAR_LEN) as nat / (total_runs_guess_spec(
        iteration,
        thorough,
    ) * 1000)
}

/// Computes [`guess_progress_spec`]. `sample_progress_milli` is the
/// in-flight oracle's own progress in thousandths. While the iteration count
/// stays within the guessed total, the estimate stays on the bar.
pub fn guess_progress(iteration: u64, sample_progress_milli: u64, thorough: bool) -> (r: u64)
    requires
        1 <= iteration <= MAX_PROGRESS_ITERATION,
        sample_progress_milli <= 1000,
    ensures
        r == guess_progress_spec(iteration as nat, sample_progress_milli as nat, thorough),
        iteration <= total_runs_guess_spec(iteration as nat, thorough) ==> r <= BAR_LEN,
{
    let total_runs_guess: u64 = if thorough && iteration < 7 {
        6
    } else if iteration < 5 {
        4
    } else {
        iteration
    };
    let done: u64 = (iteration - 1) * 1000 + sample_progress_milli;
    proof {
        assert((done as nat) * (BAR_LEN as nat) <= (1_000_001_000 as nat) * (BAR_LEN as nat))
            by (nonlinear_arith)
            requires
                done <= 1_000_001_000,
        ;
    }
    let scaled = done * BAR_LEN;
    let denom = total_runs_guess * 1000;
    let r = scaled / denom;
    proof {
        if iteration <= total_runs_guess {
            let d = denom as int;
            assert(done <= denom);
            assert((done as int) * (BAR_LEN as int) <= d * (BAR_LEN as int)) by (nonlinear_arith)
                requires
                    done as int <= d,
                    0 <= done,
            ;
            lemma_div_is_ordered((done as int) * (BAR_LEN as int), d * (BAR_LEN as int), d);
            lemma_div_multiples_vanish(BAR_LEN as int, d);
            assert(d * (BAR_LEN as int) / d == BAR_LEN as int);
        }
    }
    r
}

} // verus!
