//! The live search cursor: the current trial value, the previous trial, the
//! search-coordinate bounds, and the quantisation step.
//!
//! Quality scores and size ratios are fixed-point integers in thousandths, so
//! a target score of `95.0` is carried as `95_000`. Trial values are plain
//! integers; a caller whose natural unit is fractional scales them (a
//! constant-quality step of `0.1` becomes `1` with every value tenfold).

use crate::transform::{Transform, MAX_Q};
use vstd::arithmetic::div_mod::{lemma_fundamental_div_mod, lemma_mod_bound};
use vstd::prelude::*;

verus! {

/// Cap on quality scores and size ratios (in thousandths), so interpolation
/// products stay inside `u64`.
pub const SCORE_CAP: u64 = 1_000_000;

/// One oracle measurement: what the sample encode achieved.
#[derive(Clone, Copy, Debug)]
pub struct Measurement {
    /// Achieved quality score, in thousandths.
    pub score: u64,
    /// Encoded size as a percentage of the input size, in thousandths.
    pub size_ratio: u64,
    /// Predicted full encode size, in bytes.
    pub predicted_size: u64,
    /// Predicted full encode time, in milliseconds.
    pub predicted_duration: u64,
    /// Whether the oracle served this result from its cache.
    pub from_cache: bool,
}

impl Measurement {
    /// The all-zero measurement a fresh search starts from.
    pub open spec fn zero() -> Measurement {
        Measurement {
            score: 0,
            size_ratio: 0,
            predicted_size: 0,
            predicted_duration: 0,
            from_cache: false,
        }
    }

    /// Builds [`Measurement::zero`].
    pub fn new() -> (m: Measurement)
        ensures
            m == Measurement::zero(),
    {
        Measurement { score: 0, size_ratio: 0, predicted_size: 0, predicted_duration: 0, from_cache: false }
    }
}

/// The coordinate where a line through `(worse_q, worse_score)` and
/// `(better_q, better_score)` crosses `min_score`.
pub open spec fn lerp_spec(
    worse_q: int,
    worse_score: int,
    better_q: int,
    better_score: int,
    min_score: int,
) -> int {
    (worse_q * (better_score - min_score) + better_q * (min_score - worse_score)) / (better_score
        - worse_score)
}

/// The coordinate an optional bracketing attempt contributes, falling back
/// to the cursor's own coordinate.
pub open spec fn bound_or_q(s: Sample, o: Option<&Sample>) -> int {
    match o {
        Some(b) => b.q as int,
        None => s.q as int,
    }
}

/// The score an optional bracketing attempt contributes, falling back to the
/// cursor's own last measurement.
pub open spec fn bound_or_score(s: Sample, o: Option<&Sample>) -> int {
    match o {
        Some(b) => b.enc.score as int,
        None => s.enc.score as int,
    }
}

/// `x` clamped into `[lo, hi]`.
pub open spec fn clamp_spec(x: int, lo: int, hi: int) -> int {
    if x < lo {
        lo
    } else if x > hi {
        hi
    } else {
        x
    }
}

/// `v` rounded down to the nearest multiple of `inc`.
pub open spec fn quantize_spec(v: nat, inc: nat) -> nat {
    (v / inc) * inc
}

/// `q` rounded to the nearest multiple of `inc`, ties upward.
pub open spec fn round_to_multiple_spec(q: nat, inc: nat) -> nat {
    ((q + inc / 2) / inc) * inc
}

/// The trial value for coordinate `q`: the inverse image rounded down to a
/// multiple of `inc`, then clamped up to the range floor `inverse(min_q)`.
/// The clamp keeps every trial inside the configured range even when the
/// range floor is not itself a multiple of the increment.
pub open spec fn trial_val_spec(transform: Transform, min_q: u64, inc: u64, q: u64) -> nat {
    let raw = quantize_spec(transform.inverse_spec(q as nat), inc as nat);
    let floor = transform.inverse_spec(min_q as nat);
    if raw < floor {
        floor
    } else {
        raw
    }
}

/// For a coordinate inside a range whose ends are forward images of
/// in-domain values, the clamped quantised trial value lies inside the
/// value range.
pub proof fn lemma_trial_val_in_range(
    transform: Transform,
    min_value: u64,
    max_value: u64,
    min_q: u64,
    max_q: u64,
    inc: u64,
    q: u64,
)
    requires
        transform.in_domain(min_value),
        transform.in_domain(max_value),
        min_value <= max_value,
        min_q == transform.forward_spec(min_value as nat),
        max_q == transform.forward_spec(max_value as nat),
        min_q <= q <= max_q,
        1 <= inc,
    ensures
        min_value <= trial_val_spec(transform, min_q, inc, q) <= max_value,
{
    transform.lemma_round_trip(min_value);
    transform.lemma_round_trip(max_value);
    transform.lemma_inverse_monotonic(q as nat, max_q as nat);
    lemma_quantize_le(transform.inverse_spec(q as nat), inc as nat);
}

/// Rounding down to a multiple never increases the value.
pub proof fn lemma_quantize_le(v: nat, inc: nat)
    requires
        1 <= inc,
    ensures
        quantize_spec(v, inc) <= v,
{
    lemma_fundamental_div_mod(v as int, inc as int);
    lemma_mod_bound(v as int, inc as int);
    assert((v / inc) * inc == inc * (v / inc)) by (nonlinear_arith);
}

/// Quantisation is idempotent: a value already on the grid stays put.
pub proof fn lemma_quantize_idempotent(v: nat, inc: nat)
    requires
        1 <= inc,
    ensures
        quantize_spec(quantize_spec(v, inc), inc) == quantize_spec(v, inc),
{
    let k = v / inc;
    assert((k * inc) / inc == k) by (nonlinear_arith)
        requires
            1 <= inc,
    ;
}

/// The search cursor. `val` is the current trial value (quantised), `q` its
/// search coordinate, and `prev_val`/`prev_q` snapshot the trial that was
/// last handed to the oracle before the cursor moved on.
#[derive(Clone, Copy, Debug)]
pub struct Sample {
    /// The last oracle measurement recorded into this cursor.
    pub enc: Measurement,
    /// Current trial value: rounded down to a multiple of `inc`, clamped up
    /// to the range floor.
    pub val: u64,
    /// Value of the previously evaluated trial.
    pub prev_val: u64,
    /// Search coordinate of the previously evaluated trial.
    pub prev_q: u64,
    /// Quantisation step in value space.
    pub inc: u64,
    /// Current search coordinate.
    pub q: u64,
    /// Lower bound of the search-coordinate range.
    pub min_q: u64,
    /// Upper bound of the search-coordinate range.
    pub max_q: u64,
    /// The transform between value space and coordinate space.
    pub transform: Transform,
}

impl Sample {
    /// Structural bounds every cursor keeps: a positive step and a coordinate
    /// inside its range.
    pub open spec fn wf(self) -> bool {
        &&& 1 <= self.inc <= MAX_Q
        &&& 1 <= self.min_q
        &&& self.min_q <= self.q <= self.max_q
        &&& self.max_q <= MAX_Q
    }

    /// The current trial value is derived from the current coordinate,
    /// clamped up to the range floor.
    pub open spec fn val_tracks_q(self) -> bool {
        self.val == trial_val_spec(self.transform, self.min_q, self.inc, self.q)
    }

    /// Rounds `val` down to the nearest multiple of `inc`.
    pub fn mod_inc(val: u64, inc: u64) -> (r: u64)
        requires
            1 <= inc,
        ensures
            r == quantize_spec(val as nat, inc as nat),
            r <= val,
    {
        proof {
            lemma_quantize_le(val as nat, inc as nat);
        }
        (val / inc) * inc
    }

    /// Derives the quantised trial value for coordinate `q`.
    pub fn num_from_q(q: u64, inc: u64, transform: Transform) -> (v: u64)
        requires
            1 <= q <= MAX_Q,
            1 <= inc,
        ensures
            v == quantize_spec(transform.inverse_spec(q as nat), inc as nat),
            v <= MAX_Q,
    {
        let val = transform.inverse(q);
        Sample::mod_inc(val, inc)
    }

    /// Maps a trial value back to a coordinate rounded to the nearest
    /// multiple of `inc`, ties upward.
    pub fn num_from_val(val: u64, inc: u64, transform: Transform) -> (q: u64)
        requires
            transform.in_domain(val),
            1 <= inc <= MAX_Q,
        ensures
            q == round_to_multiple_spec(transform.forward_spec(val as nat), inc as nat),
            q <= MAX_Q + inc / 2,
    {
        let fwd = transform.forward(val);
        let shifted = fwd + inc / 2;
        proof {
            lemma_quantize_le(shifted as nat, inc as nat);
        }
        (shifted / inc) * inc
    }

    /// The trial value for the current coordinate: quantised, then clamped
    /// up to the range floor.
    pub fn from_q(&self) -> (v: u64)
        requires
            self.wf(),
        ensures
            v == trial_val_spec(self.transform, self.min_q, self.inc, self.q),
            v <= MAX_Q,
    {
        let raw = Sample::from_q_parts(self.q, self.inc, self.transform);
        let floor = self.transform.inverse(self.min_q);
        if raw < floor {
            floor
        } else {
            raw
        }
    }

    /// The rounded coordinate for the current trial value.
    pub fn from_val(&self) -> (q: u64)
        requires
            self.wf(),
            self.transform.in_domain(self.val),
        ensures
            q == round_to_multiple_spec(
                self.transform.forward_spec(self.val as nat),
                self.inc as nat,
            ),
    {
        proof {
            assert(self.inc <= MAX_Q);
        }
        Sample::num_from_val(self.val, self.inc, self.transform)
    }

    /// Re-derives `val` from the current `q`.
    pub fn val_from_q(&mut self)
        requires
            old(self).wf(),
        ensures
            *final(self) == (Sample {
                val: Sample::from_q_spec(*old(self)) as u64,
                ..*old(self)
            }),
            final(self).val_tracks_q(),
            final(self).val <= MAX_Q,
    {
        let v = self.from_q();
        self.val = v;
    }

    /// Re-derives `q` from the current `val`.
    pub fn q_from_val(&mut self)
        requires
            old(self).wf(),
            old(self).transform.in_domain(old(self).val),
            old(self).min_q <= round_to_multiple_spec(
                old(self).transform.forward_spec(old(self).val as nat),
                old(self).inc as nat,
            ) <= old(self).max_q,
        ensures
            *final(self) == (Sample {
                q: round_to_multiple_spec(
                    old(self).transform.forward_spec(old(self).val as nat),
                    old(self).inc as nat,
                ) as u64,
                ..*old(self)
            }),
            final(self).wf(),
    {
        proof {
            assert(self.inc <= MAX_Q);
        }
        self.q = Sample::num_from_val(self.val, self.inc, self.transform);
    }

    /// Snapshots the current `(val, q)` pair into `prev`.
    pub fn val_to_prev(&mut self)
        ensures
            *final(self) == (Sample {
                prev_val: old(self).val,
                prev_q: old(self).q,
                ..*old(self)
            }),
    {
        self.prev_val = self.val;
        self.prev_q = self.q;
    }

    /// Moves the cursor to coordinate `q`, snapshotting the old trial into
    /// `prev` and re-deriving the trial value.
    pub fn set_q(&mut self, q: u64)
        requires
            old(self).wf(),
            old(self).min_q <= q <= old(self).max_q,
        ensures
            *final(self) == (Sample {
                prev_val: old(self).val,
                prev_q: old(self).q,
                q,
                val: trial_val_spec(
                    old(self).transform,
                    old(self).min_q,
                    old(self).inc,
                    q,
                ) as u64,
                ..*old(self)
            }),
            final(self).wf(),
            final(self).val_tracks_q(),
    {
        self.val_to_prev();
        self.q = q;
        self.val_from_q();
    }

    /// Moves the cursor to trial value `val`, snapshotting the old trial and
    /// re-deriving the rounded coordinate.
    pub fn set_val(&mut self, val: u64)
        requires
            old(self).wf(),
            old(self).transform.in_domain(val),
            old(self).min_q <= round_to_multiple_spec(
                old(self).transform.forward_spec(val as nat),
                old(self).inc as nat,
            ) <= old(self).max_q,
        ensures
            *final(self) == (Sample {
                prev_val: old(self).val,
                prev_q: old(self).q,
                val,
                q: round_to_multiple_spec(
                    old(self).transform.forward_spec(val as nat),
                    old(self).inc as nat,
                ) as u64,
                ..*old(self)
            }),
            final(self).wf(),
    {
        self.val_to_prev();
        self.val = val;
        self.q_from_val();
    }

    /// The previously evaluated trial value (the bitrate reading of the
    /// accepted trial).
    pub fn br(&self) -> (v: u64)
        ensures
            v == self.prev_val,
    {
        self.prev_val
    }

    /// The previously evaluated trial value (the constant-quality reading of
    /// the accepted trial, in the caller's scaled units).
    pub fn cq(&self) -> (v: u64)
        ensures
            v == self.prev_val,
    {
        self.prev_val
    }

    /// Linear interpolation of a new coordinate: the line through the worse
    /// and better attempts' `(q, score)` pairs is solved for `min_score`, and
    /// the result clamped strictly inside the bracket. `None` on either side
    /// stands for this cursor's own `(q, score)`.
    pub fn vmaf_lerp_q(&mut self, min_score: u64, worse: Option<&Sample>, better: Option<&Sample>)
        requires
            old(self).wf(),
            min_score <= SCORE_CAP,
            bound_or_score(*old(self), worse) <= min_score,
            min_score < bound_or_score(*old(self), better),
            bound_or_score(*old(self), better) <= SCORE_CAP,
            bound_or_q(*old(self), worse) + 2 <= bound_or_q(*old(self), better),
            bound_or_q(*old(self), better) <= MAX_Q,
            old(self).min_q <= bound_or_q(*old(self), worse) + 1,
            bound_or_q(*old(self), better) - 1 <= old(self).max_q,
        ensures
            *final(self) == (Sample {
                prev_val: old(self).val,
                prev_q: old(self).q,
                q: clamp_spec(
                    lerp_spec(
                        bound_or_q(*old(self), worse),
                        bound_or_score(*old(self), worse),
                        bound_or_q(*old(self), better),
                        bound_or_score(*old(self), better),
                        min_score as int,
                    ),
                    bound_or_q(*old(self), worse) + 1,
                    bound_or_q(*old(self), better) - 1,
                ) as u64,
                val: trial_val_spec(
                    old(self).transform,
                    old(self).min_q,
                    old(self).inc,
                    final(self).q,
                ) as u64,
                ..*old(self)
            }),
            bound_or_q(*old(self), worse) + 1 <= final(self).q,
            final(self).q <= bound_or_q(*old(self), better) - 1,
            final(self).wf(),
            final(self).val_tracks_q(),
    {
        let (worse_q, worse_score): (u64, u64) = match worse {
            Some(w) => (w.q, w.enc.score),
            None => (self.q, self.enc.score),
        };
        let (better_q, better_score): (u64, u64) = match better {
            Some(b) => (b.q, b.enc.score),
            None => (self.q, self.enc.score),
        };
        proof {
            assert((worse_q as nat) * ((better_score - min_score) as nat) <= (MAX_Q as nat)
                * (SCORE_CAP as nat)) by (nonlinear_arith)
                requires
                    worse_q <= MAX_Q,
                    better_score - min_score <= SCORE_CAP,
                    0 <= better_score - min_score,
            ;
            assert((better_q as nat) * ((min_score - worse_score) as nat) <= (MAX_Q as nat)
                * (SCORE_CAP as nat)) by (nonlinear_arith)
                requires
                    better_q <= MAX_Q,
                    min_score - worse_score <= SCORE_CAP,
                    0 <= min_score - worse_score,
            ;
            assert((MAX_Q as nat) * (SCORE_CAP as nat) + (MAX_Q as nat) * (SCORE_CAP as nat)
                < 0xffff_ffff_ffff_ffff) by (nonlinear_arith);
        }
        let numerator = worse_q * (better_score - min_score) + better_q * (min_score - worse_score);
        let denominator = better_score - worse_score;
        let lerp = numerator / denominator;
        let lo = worse_q + 1;
        let hi = better_q - 1;
        let next_q = if lerp < lo {
            lo
        } else if lerp > hi {
            hi
        } else {
            lerp
        };
        self.set_q(next_q);
    }

    /// Spec-level shorthand for the value `from_q`/`val_from_q` derive.
    pub open spec fn from_q_spec(self) -> nat {
        trial_val_spec(self.transform, self.min_q, self.inc, self.q)
    }

    /// Shared body of `from_q` and `val_from_q`.
    fn from_q_parts(q: u64, inc: u64, transform: Transform) -> (v: u64)
        requires
            1 <= q <= MAX_Q,
            1 <= inc,
        ensures
            v == quantize_spec(transform.inverse_spec(q as nat), inc as nat),
            v <= MAX_Q,
    {
        Sample::num_from_q(q, inc, transform)
    }

    /// Creates the cursor for a fresh search: coordinates for both bounds,
    /// the midpoint as the first coordinate, and its quantised trial value
    /// clamped up to the range floor.
    pub fn new(
        enc: Measurement,
        min_value: u64,
        max_value: u64,
        increment: u64,
        transform: Transform,
    ) -> (s: Sample)
        requires
            transform.in_domain(min_value),
            transform.in_domain(max_value),
            min_value < max_value,
            1 <= increment <= MAX_Q,
        ensures
            s.enc == enc,
            s.inc == increment,
            s.transform == transform,
            s.min_q == transform.forward_spec(min_value as nat),
            s.max_q == transform.forward_spec(max_value as nat),
            s.min_q < s.max_q,
            s.q == (s.min_q + s.max_q) / 2,
            s.val == trial_val_spec(transform, s.min_q, increment, s.q),
            min_value <= s.val <= max_value,
            s.prev_val == s.val,
            s.prev_q == s.q,
            s.wf(),
            s.val_tracks_q(),
    {
        let min_q = transform.forward(min_value);
        let max_q = transform.forward(max_value);
        proof {
            transform.lemma_forward_strictly_monotonic(min_value, max_value);
            transform.lemma_forward_in_range(min_value);
            transform.lemma_forward_in_range(max_value);
        }
        let q = (min_q + max_q) / 2;
        let raw = Sample::num_from_q(q, increment, transform);
        proof {
            transform.lemma_round_trip(min_value);
            lemma_trial_val_in_range(transform, min_value, max_value, min_q, max_q, increment, q);
        }
        // Floor quantisation can land one step below the range floor when
        // the floor is not a multiple of the increment; clamp it back up.
        let val = if raw < min_value {
            min_value
        } else {
            raw
        };
        Sample {
            enc,
            val,
            prev_val: val,
            prev_q: q,
            inc: increment,
            q,
            min_q,
            max_q,
            transform,
        }
    }
}

} // verus!
