//! The search controller: records each oracle measurement, keeps the
//! tightest bracketing attempts around the current trial, interpolates or
//! bisects the next coordinate, and decides termination.
//!
//! One call of [`SearchState::evaluate`] consumes one oracle measurement and
//! either terminates the search or narrows the bracket; the bracket width
//! strictly shrinks on every continuation, which bounds the number of oracle
//! calls by the width of the coordinate range.

use crate::sample::{
    bound_or_q, bound_or_score, clamp_spec, lemma_trial_val_in_range, lerp_spec, trial_val_spec,
    Measurement, Sample, SCORE_CAP,
};
use crate::transform::{pow2_exec, Transform, MAX_Q};
use vstd::arithmetic::power2::pow2;
use vstd::pervasive::arbitrary;
use vstd::prelude::*;

verus! {

/// Tolerance used once the geometric schedule has outgrown every admissible
/// score: any good-enough sample is then within tolerance.
pub const TOLERANCE_SATURATED: u64 = 10_000_000;

/// Iteration from which the geometric tolerance schedule saturates.
pub const TOLERANCE_SATURATION_ITERATION: u64 = 33;

/// The validated inputs of one search invocation. Scores and ratios are in
/// thousandths; `increment_milli` restates the quantisation step in score
/// thousandths for the tolerance schedule.
#[derive(Clone, Copy, Debug)]
pub struct SearchConfig {
    /// Smallest (highest-quality-per-bit) value to try.
    pub min_value: u64,
    /// Largest value to try.
    pub max_value: u64,
    /// Quantisation step in value space; coerced up to at least one.
    pub increment: u64,
    /// The quantisation step expressed in score thousandths, driving how far
    /// above the target an accepted score may lie.
    pub increment_milli: u64,
    /// The transform that linearises value space for interpolation.
    pub transform: Transform,
    /// Minimum quality score to deliver, in thousandths.
    pub min_score: u64,
    /// Maximum encoded size as a percentage of the input, in thousandths.
    pub max_size_ratio: u64,
    /// Keep searching until within a fixed tight tolerance.
    pub thorough: bool,
}

impl SearchConfig {
    /// A configuration the search accepts: bounds inside the transform's
    /// domain and correctly ordered, with capped score-space inputs.
    pub open spec fn valid(self) -> bool {
        &&& self.transform.in_domain(self.min_value)
        &&& self.transform.in_domain(self.max_value)
        &&& self.min_value < self.max_value
        &&& self.min_score <= SCORE_CAP
        &&& self.increment <= MAX_Q
        &&& self.increment_milli <= SCORE_CAP
    }

    /// The quantisation step actually used: coerced to a sane minimum.
    pub open spec fn eff_increment(self) -> u64 {
        if self.increment < 1 {
            1u64
        } else {
            self.increment
        }
    }

    /// How far above `min_score` an accepted score may lie at `iteration`.
    /// Thorough mode keeps it fixed and tight; otherwise it grows
    /// geometrically from a tenth of the increment, saturating once larger
    /// than any admissible score.
    pub open spec fn tolerance_spec(self, iteration: nat) -> nat {
        if self.thorough {
            50
        } else if iteration >= TOLERANCE_SATURATION_ITERATION {
            TOLERANCE_SATURATED as nat
        } else {
            let t = (self.increment_milli as nat * pow2((iteration - 1) as nat)) / 10;
            if t < 100 {
                100
            } else {
                t
            }
        }
    }
}

/// Why a search invocation ended without an accepted sample.
#[derive(Clone, Copy, Debug)]
pub enum SearchError {
    /// The configuration was rejected before any oracle call.
    InvalidConfig,
    /// Every reachable trial failed a constraint; carries the last attempt.
    NoGoodValue(Sample),
}

/// What one evaluation step decided.
#[derive(Clone, Copy, Debug)]
pub enum SearchStep {
    /// The search is over; the carried sample satisfies both constraints.
    Accept(Sample),
    /// The search is over; no value satisfies both constraints. Carries the
    /// last attempt.
    NoGoodValue(Sample),
    /// The cursor moved to the next trial; call the oracle again.
    Continue,
}

/// Spec-level summary of the branch `evaluate` takes.
pub enum Decision {
    /// Accept the just-measured sample.
    AcceptCurrent,
    /// Accept the recorded upper-bound attempt one step above.
    AcceptUpper,
    /// Classified failure.
    Fail,
    /// Narrow the bracket and continue.
    Narrow,
}

/// Coordinate of a lower bracket: the attempt's coordinate, or one below
/// the cursor's range.
pub open spec fn lo_q_at(sample: Sample, lo: Option<Sample>) -> int {
    match lo {
        Some(a) => a.q as int,
        None => sample.min_q - 1,
    }
}

/// Score of a lower bracket attempt.
pub open spec fn lo_score_at(lo: Option<Sample>) -> int {
    match lo {
        Some(a) => a.enc.score as int,
        None => 0,
    }
}

/// Coordinate of an upper bracket: the attempt's coordinate, or one above
/// the cursor's range.
pub open spec fn hi_q_at(sample: Sample, hi: Option<Sample>) -> int {
    match hi {
        Some(a) => a.q as int,
        None => sample.max_q + 1,
    }
}

/// Score of an upper bracket attempt.
pub open spec fn hi_score_at(hi: Option<Sample>) -> int {
    match hi {
        Some(a) => a.enc.score as int,
        None => 0,
    }
}

/// Size ratio of an upper bracket attempt.
pub open spec fn hi_size_ratio_at(hi: Option<Sample>) -> int {
    match hi {
        Some(a) => a.enc.size_ratio as int,
        None => 0,
    }
}

/// The cursor after a measurement is folded in: the just-evaluated trial is
/// snapshotted into `prev`.
pub open spec fn current_result_at(sample: Sample, m: Measurement) -> Sample {
    Sample { enc: m, prev_val: sample.val, prev_q: sample.q, ..sample }
}

/// The sample returned when the recorded upper-bound attempt one step above
/// is accepted: that attempt, reporting its own trial value.
pub open spec fn upper_result_at(sample: Sample, hi: Option<Sample>) -> Sample {
    match hi {
        Some(b) => Sample { prev_val: b.val, prev_q: b.q, ..b },
        None => sample,
    }
}

/// The branch the controller takes on measurement `m`, given the cursor,
/// the recorded brackets and the iteration: the two-sided case analysis.
pub open spec fn decision_at(
    cfg: SearchConfig,
    sample: Sample,
    lo: Option<Sample>,
    hi: Option<Sample>,
    iteration: nat,
    m: Measurement,
) -> Decision {
    if m.score > cfg.min_score {
        if m.size_ratio <= cfg.max_size_ratio && m.score < cfg.min_score + cfg.tolerance_spec(
            iteration,
        ) {
            Decision::AcceptCurrent
        } else if lo_q_at(sample, lo) == sample.q - 1 {
            if m.size_ratio <= cfg.max_size_ratio {
                Decision::AcceptCurrent
            } else {
                Decision::Fail
            }
        } else {
            Decision::Narrow
        }
    } else {
        if m.size_ratio > cfg.max_size_ratio || sample.q == sample.max_q {
            Decision::Fail
        } else if hi_q_at(sample, hi) == sample.q + 1 {
            if hi_size_ratio_at(hi) <= cfg.max_size_ratio {
                Decision::AcceptUpper
            } else {
                Decision::Fail
            }
        } else {
            Decision::Narrow
        }
    }
}

/// The coordinate the cursor moves to when the controller continues:
/// interpolation against the tight bracket where one exists, otherwise a
/// jump to the untried end of the range.
pub open spec fn next_q_at(
    cfg: SearchConfig,
    sample: Sample,
    lo: Option<Sample>,
    hi: Option<Sample>,
    m: Measurement,
) -> int {
    if m.score > cfg.min_score {
        if lo_q_at(sample, lo) >= sample.min_q {
            clamp_spec(
                lerp_spec(
                    lo_q_at(sample, lo),
                    lo_score_at(lo),
                    sample.q as int,
                    m.score as int,
                    cfg.min_score as int,
                ),
                lo_q_at(sample, lo) + 1,
                sample.q - 1,
            )
        } else {
            sample.min_q as int
        }
    } else {
        if hi_q_at(sample, hi) <= sample.max_q {
            clamp_spec(
                lerp_spec(
                    sample.q as int,
                    m.score as int,
                    hi_q_at(sample, hi),
                    hi_score_at(hi),
                    cfg.min_score as int,
                ),
                sample.q + 1,
                hi_q_at(sample, hi) - 1,
            )
        } else {
            sample.max_q as int
        }
    }
}

/// The cursor after a continued iteration: the measurement recorded, the
/// old trial snapshotted into `prev`, and the new coordinate with its
/// clamped quantised trial value.
pub open spec fn next_sample_at(
    cfg: SearchConfig,
    sample: Sample,
    lo: Option<Sample>,
    hi: Option<Sample>,
    m: Measurement,
) -> Sample {
    let nq = next_q_at(cfg, sample, lo, hi, m) as u64;
    Sample {
        enc: m,
        prev_val: sample.val,
        prev_q: sample.q,
        q: nq,
        val: trial_val_spec(sample.transform, sample.min_q, sample.inc, nq) as u64,
        ..sample
    }
}

/// The lower bracket after one iteration: a failing measurement records the
/// cursor as the new tightest lower bound.
pub open spec fn step_lo_at(
    cfg: SearchConfig,
    sample: Sample,
    lo: Option<Sample>,
    m: Measurement,
) -> Option<Sample> {
    if m.score > cfg.min_score {
        lo
    } else {
        Some(Sample { enc: m, ..sample })
    }
}

/// The upper bracket after one iteration: a passing measurement records the
/// cursor as the new tightest upper bound.
pub open spec fn step_hi_at(
    cfg: SearchConfig,
    sample: Sample,
    hi: Option<Sample>,
    m: Measurement,
) -> Option<Sample> {
    if m.score > cfg.min_score {
        Some(Sample { enc: m, ..sample })
    } else {
        hi
    }
}

/// The cursor a fresh search starts from: the coordinate midpoint of the
/// range with its clamped quantised trial value.
pub open spec fn initial_sample(cfg: SearchConfig) -> Sample {
    let min_q = cfg.transform.forward_spec(cfg.min_value as nat) as u64;
    let max_q = cfg.transform.forward_spec(cfg.max_value as nat) as u64;
    let q = ((min_q + max_q) / 2) as u64;
    let val = trial_val_spec(cfg.transform, min_q, cfg.eff_increment(), q) as u64;
    Sample {
        enc: Measurement::zero(),
        val,
        prev_val: val,
        prev_q: q,
        inc: cfg.eff_increment(),
        q,
        min_q,
        max_q,
        transform: cfg.transform,
    }
}

/// The outcome of a whole search, as a fold of the per-step decision over
/// the oracle replies, consumed in order from `idx`. The fuel only bounds
/// the recursion; on every input the search admits, the decision terminates
/// strictly before the fuel runs out, so the out-of-fuel arm is never the
/// value of a run.
pub open spec fn run_search_at(
    cfg: SearchConfig,
    sample: Sample,
    lo: Option<Sample>,
    hi: Option<Sample>,
    iteration: nat,
    ms: Seq<Measurement>,
    idx: int,
    fuel: nat,
) -> Result<Sample, SearchError>
    decreases fuel,
{
    if fuel == 0 || !(0 <= idx < ms.len()) {
        arbitrary()
    } else {
        let m = ms[idx];
        match decision_at(cfg, sample, lo, hi, iteration, m) {
            Decision::AcceptCurrent => Ok(current_result_at(sample, m)),
            Decision::AcceptUpper => Ok(upper_result_at(sample, hi)),
            Decision::Fail => Err(SearchError::NoGoodValue(current_result_at(sample, m))),
            Decision::Narrow => run_search_at(
                cfg,
                next_sample_at(cfg, sample, lo, hi, m),
                step_lo_at(cfg, sample, lo, m),
                step_hi_at(cfg, sample, hi, m),
                iteration + 1,
                ms,
                idx + 1,
                (fuel - 1) as nat,
            ),
        }
    }
}

/// The full state of one running search.
pub struct SearchState {
    /// The validated configuration.
    pub cfg: SearchConfig,
    /// The live cursor.
    pub sample: Sample,
    /// Append-only history, one entry per oracle call.
    pub attempts: Vec<Sample>,
    /// The iteration about to be evaluated, starting at one.
    pub iteration: u64,
    /// The tightest recorded attempt below the cursor (always failing the
    /// score target), if any.
    pub lo_att: Ghost<Option<Sample>>,
    /// The tightest recorded attempt above the cursor (always meeting the
    /// score target), if any.
    pub hi_att: Ghost<Option<Sample>>,
}

impl SearchState {
    /// Whether an attempt met the score target.
    pub open spec fn attempt_good(self, a: Sample) -> bool {
        a.enc.score > self.cfg.min_score
    }

    /// Coordinate of the lower bracket: the tightest failing attempt, or one
    /// below the range.
    pub open spec fn lo_q(self) -> int {
        lo_q_at(self.sample, self.lo_att@)
    }

    /// Score of the lower bracket attempt.
    pub open spec fn lo_score(self) -> int {
        lo_score_at(self.lo_att@)
    }

    /// Coordinate of the upper bracket: the tightest passing attempt, or one
    /// above the range.
    pub open spec fn hi_q(self) -> int {
        hi_q_at(self.sample, self.hi_att@)
    }

    /// Score of the upper bracket attempt.
    pub open spec fn hi_score(self) -> int {
        hi_score_at(self.hi_att@)
    }

    /// Size ratio of the upper bracket attempt.
    pub open spec fn hi_size_ratio(self) -> int {
        hi_size_ratio_at(self.hi_att@)
    }

    /// Width of the open bracket the next trial must fall into; strictly
    /// shrinks on every continued iteration.
    pub open spec fn measure(self) -> int {
        self.hi_q() - self.lo_q()
    }

    /// The controller's invariant: the cursor is tied to the configuration,
    /// the history is bracketed by the ghost bounds, and the iteration count
    /// plus bracket width is conserved, bounding the loop.
    pub open spec fn inv(self) -> bool {
        &&& self.cfg.valid()
        &&& self.sample.wf()
        &&& self.sample.val_tracks_q()
        &&& self.sample.transform == self.cfg.transform
        &&& self.sample.inc == self.cfg.eff_increment()
        &&& self.sample.min_q == self.cfg.transform.forward_spec(self.cfg.min_value as nat)
        &&& self.sample.max_q == self.cfg.transform.forward_spec(self.cfg.max_value as nat)
        &&& self.sample.min_q < self.sample.max_q
        &&& self.cfg.min_value <= self.sample.val <= self.cfg.max_value
        &&& 1 <= self.iteration
        &&& self.iteration == self.attempts@.len() + 1
        &&& forall|i: int|
            0 <= i < self.attempts@.len() ==> {
                let a = #[trigger] self.attempts@[i];
                &&& self.sample.min_q <= a.q <= self.sample.max_q
                &&& a.enc.score <= SCORE_CAP
                &&& (self.attempt_good(a) ==> a.q >= self.hi_q())
                &&& (!self.attempt_good(a) ==> a.q <= self.lo_q())
            }
        &&& forall|i: int, j: int|
            0 <= i < j < self.attempts@.len() ==> #[trigger] self.attempts@[i].q
                != #[trigger] self.attempts@[j].q
        &&& (self.lo_att@ matches Some(a) ==> {
            &&& exists|i: int|
                0 <= i < self.attempts@.len() && #[trigger] self.attempts@[i] == a
            &&& !self.attempt_good(a)
        })
        &&& (self.hi_att@ matches Some(a) ==> {
            &&& exists|i: int|
                0 <= i < self.attempts@.len() && #[trigger] self.attempts@[i] == a
            &&& self.attempt_good(a)
        })
        &&& self.lo_q() < self.sample.q < self.hi_q()
        &&& self.iteration + self.measure() <= self.sample.max_q - self.sample.min_q + 3
    }

    /// The attempt recorded for measurement `m`: the cursor as it stood when
    /// the oracle was called, with the measurement filled in.
    pub open spec fn recorded_attempt(self, m: Measurement) -> Sample {
        Sample { enc: m, ..self.sample }
    }

    /// The cursor after a measurement is folded in: the just-evaluated trial
    /// is snapshotted into `prev`.
    pub open spec fn current_result(self, m: Measurement) -> Sample {
        current_result_at(self.sample, m)
    }

    /// The sample returned when the recorded upper-bound attempt one step
    /// above is accepted: that attempt, reporting its own trial value.
    pub open spec fn upper_result(self) -> Sample {
        upper_result_at(self.sample, self.hi_att@)
    }

    /// Whether measurement `m` fits the size budget.
    pub open spec fn small_enough(self, m: Measurement) -> bool {
        m.size_ratio <= self.cfg.max_size_ratio
    }

    /// The branch `evaluate` takes on measurement `m`, mirroring the
    /// two-sided case analysis of the controller.
    pub open spec fn decision(self, m: Measurement) -> Decision {
        decision_at(self.cfg, self.sample, self.lo_att@, self.hi_att@, self.iteration as nat, m)
    }

    /// The coordinate the cursor moves to when `evaluate` continues:
    /// interpolation against the tight bracket where one exists, otherwise a
    /// jump to the untried end of the range.
    pub open spec fn next_q_spec(self, m: Measurement) -> int {
        next_q_at(self.cfg, self.sample, self.lo_att@, self.hi_att@, m)
    }

    /// Validates a configuration and builds the initial state: the cursor at
    /// the midpoint coordinate with no history.
    pub fn new(cfg: SearchConfig) -> (r: Result<SearchState, SearchError>)
        ensures
            r is Ok <==> cfg.valid(),
            r matches Err(e) ==> e is InvalidConfig,
            r matches Ok(s) ==> {
                &&& s.inv()
                &&& s.cfg == cfg
                &&& s.iteration == 1
                &&& s.attempts@.len() == 0
                &&& s.sample.enc == Measurement::zero()
                &&& s.sample.q == (s.sample.min_q + s.sample.max_q) / 2
                &&& s.sample.min_q == cfg.transform.forward_spec(cfg.min_value as nat)
                &&& s.sample.max_q == cfg.transform.forward_spec(cfg.max_value as nat)
                &&& s.sample == initial_sample(cfg)
                &&& s.sample.val == trial_val_spec(
                    cfg.transform,
                    s.sample.min_q,
                    cfg.eff_increment(),
                    s.sample.q,
                )
                &&& s.sample.prev_val == s.sample.val
            },
    {
        let ok = cfg.transform.check_domain(cfg.min_value) && cfg.transform.check_domain(
            cfg.max_value,
        ) && cfg.min_value < cfg.max_value && cfg.min_score <= SCORE_CAP && cfg.increment <= MAX_Q
            && cfg.increment_milli <= SCORE_CAP;
        if !ok {
            return Err(SearchError::InvalidConfig);
        }
        let increment = if cfg.increment < 1 {
            1
        } else {
            cfg.increment
        };
        let sample = Sample::new(
            Measurement::new(),
            cfg.min_value,
            cfg.max_value,
            increment,
            cfg.transform,
        );
        Ok(
            SearchState {
                cfg,
                sample,
                attempts: Vec::new(),
                iteration: 1,
                lo_att: Ghost(None),
                hi_att: Ghost(None),
            },
        )
    }

    /// Finds the recorded attempt with the greatest coordinate strictly
    /// below the cursor: the tightest lower bound.
    fn lower_bound_index(&self) -> (r: Option<usize>)
        ensures
            match r {
                Some(i) => {
                    &&& i < self.attempts@.len()
                    &&& self.attempts@[i as int].q < self.sample.q
                    &&& forall|j: int|
                        0 <= j < self.attempts@.len() && #[trigger] self.attempts@[j].q
                            < self.sample.q ==> self.attempts@[j].q <= self.attempts@[i as int].q
                },
                None => forall|j: int|
                    0 <= j < self.attempts@.len() ==> #[trigger] self.attempts@[j].q
                        >= self.sample.q,
            },
    {
        let mut best: Option<usize> = None;
        let mut k: usize = 0;
        while k < self.attempts.len()
            invariant
                k <= self.attempts@.len(),
                match best {
                    Some(i) => {
                        &&& i < k
                        &&& self.attempts@[i as int].q < self.sample.q
                        &&& forall|j: int|
                            0 <= j < k && #[trigger] self.attempts@[j].q < self.sample.q
                                ==> self.attempts@[j].q <= self.attempts@[i as int].q
                    },
                    None => forall|j: int|
                        0 <= j < k ==> #[trigger] self.attempts@[j].q >= self.sample.q,
                },
            decreases self.attempts@.len() - k,
        {
            if self.attempts[k].q < self.sample.q {
                best = match best {
                    Some(i) if self.attempts[i].q >= self.attempts[k].q => Some(i),
                    _ => Some(k),
                };
            }
            k = k + 1;
        }
        best
    }

    /// Finds the recorded attempt with the least coordinate strictly above
    /// the cursor: the tightest upper bound.
    fn upper_bound_index(&self) -> (r: Option<usize>)
        ensures
            match r {
                Some(i) => {
                    &&& i < self.attempts@.len()
                    &&& self.attempts@[i as int].q > self.sample.q
                    &&& forall|j: int|
                        0 <= j < self.attempts@.len() && #[trigger] self.attempts@[j].q
                            > self.sample.q ==> self.attempts@[j].q >= self.attempts@[i as int].q
                },
                None => forall|j: int|
                    0 <= j < self.attempts@.len() ==> #[trigger] self.attempts@[j].q
                        <= self.sample.q,
            },
    {
        let mut best: Option<usize> = None;
        let mut k: usize = 0;
        while k < self.attempts.len()
            invariant
                k <= self.attempts@.len(),
                match best {
                    Some(i) => {
                        &&& i < k
                        &&& self.attempts@[i as int].q > self.sample.q
                        &&& forall|j: int|
                            0 <= j < k && #[trigger] self.attempts@[j].q > self.sample.q
                                ==> self.attempts@[j].q >= self.attempts@[i as int].q
                    },
                    None => forall|j: int|
                        0 <= j < k ==> #[trigger] self.attempts@[j].q <= self.sample.q,
                },
            decreases self.attempts@.len() - k,
        {
            if self.attempts[k].q > self.sample.q {
                best = match best {
                    Some(i) if self.attempts[i].q <= self.attempts[k].q => Some(i),
                    _ => Some(k),
                };
            }
            k = k + 1;
        }
        best
    }

    /// Folds one oracle measurement into the search. The attempt is
    /// recorded, then the controller either terminates — accepting a sample
    /// that meets both constraints, or classifying failure with the last
    /// attempt — or narrows the bracket and moves the cursor to the next
    /// trial coordinate.
    pub fn evaluate(&mut self, m: Measurement) -> (r: SearchStep)
        requires
            old(self).inv(),
            m.score <= SCORE_CAP,
        ensures
            final(self).cfg == old(self).cfg,
            final(self).sample.min_q == old(self).sample.min_q,
            final(self).sample.max_q == old(self).sample.max_q,
            final(self).sample.inc == old(self).sample.inc,
            final(self).sample.transform == old(self).sample.transform,
            final(self).attempts@ == old(self).attempts@.push(old(self).recorded_attempt(m)),
            old(self).decision(m) is AcceptCurrent ==> r == SearchStep::Accept(
                old(self).current_result(m),
            ),
            old(self).decision(m) is AcceptUpper ==> r == SearchStep::Accept(
                old(self).upper_result(),
            ),
            old(self).decision(m) is Fail ==> r == SearchStep::NoGoodValue(
                old(self).current_result(m),
            ),
            old(self).decision(m) is Narrow <==> r is Continue,
            r matches SearchStep::Accept(a) ==> a.enc.score > old(self).cfg.min_score
                && a.enc.size_ratio <= old(self).cfg.max_size_ratio,
            r matches SearchStep::NoGoodValue(s) ==> s == final(self).sample && s.enc == m && (
            m.score <= old(self).cfg.min_score || m.size_ratio > old(self).cfg.max_size_ratio),
            r is Continue ==> {
                &&& final(self).inv()
                &&& final(self).iteration == old(self).iteration + 1
                &&& final(self).sample.q as int == old(self).next_q_spec(m)
                &&& final(self).sample.prev_val == old(self).sample.val
                &&& final(self).sample.prev_q == old(self).sample.q
                &&& final(self).measure() < old(self).measure()
                &&& final(self).sample == next_sample_at(
                    old(self).cfg,
                    old(self).sample,
                    old(self).lo_att@,
                    old(self).hi_att@,
                    m,
                )
                &&& final(self).lo_att@ == step_lo_at(
                    old(self).cfg,
                    old(self).sample,
                    old(self).lo_att@,
                    m,
                )
                &&& final(self).hi_att@ == step_hi_at(
                    old(self).cfg,
                    old(self).sample,
                    old(self).hi_att@,
                    m,
                )
                &&& old(self).cfg.min_value <= final(self).sample.val <= old(
                    self,
                ).cfg.max_value
            },
    {
        let ghost s0 = *old(self);
        self.sample.enc = m;
        let cur: Sample = self.sample;
        self.attempts.push(cur);
        let small = m.size_ratio <= self.cfg.max_size_ratio;
        let tol = self.higher_tolerance();
        self.sample.val_to_prev();
        if m.score > self.cfg.min_score {
            // Good enough: the score target is met.
            self.hi_att = Ghost(Some(cur));
            if small && m.score < self.cfg.min_score + tol {
                return SearchStep::Accept(self.sample);
            }
            let l = self.lower_bound_index();
            match l {
                Some(i) => {
                    let lower: Sample = self.attempts[i];
                    proof {
                        // The tightest attempt below the cursor is exactly
                        // the recorded lower bracket.
                        assert(i < s0.attempts@.len()) by {
                            if i == s0.attempts@.len() {
                                assert(self.attempts@[i as int] == cur);
                            }
                        }
                        assert(s0.attempts@[i as int] == lower);
                        assert forall|j: int|
                            0 <= j < s0.attempts@.len() && #[trigger] s0.attempts@[j].q
                                < s0.sample.q implies s0.attempts@[j].q <= lower.q by {
                            assert(self.attempts@[j] == s0.attempts@[j]);
                        }
                        lemma_lower_tie(s0, lower);
                    }
                    if lower.q + 1 == self.sample.q {
                        // The space between the brackets is exhausted.
                        if small {
                            return SearchStep::Accept(self.sample);
                        } else {
                            return SearchStep::NoGoodValue(self.sample);
                        }
                    }
                    self.sample.vmaf_lerp_q(self.cfg.min_score, Some(&lower), None);
                    self.iteration = self.iteration + 1;
                    proof {
                        lemma_continue_inv(s0, *self, m);
                    }
                    SearchStep::Continue
                },
                None => {
                    proof {
                        // No recorded attempt sits below the cursor, so
                        // there is no lower bracket.
                        match s0.lo_att@ {
                            Some(a) => {
                                let ai = choose|k: int|
                                    0 <= k < s0.attempts@.len() && #[trigger] s0.attempts@[k]
                                        == a;
                                assert(self.attempts@[ai] == a);
                                assert(a.q >= s0.sample.q);
                                assert(false);
                            },
                            None => {},
                        }
                    }
                    if self.sample.q == self.sample.min_q {
                        // The floor of the range did not help.
                        if small {
                            return SearchStep::Accept(self.sample);
                        } else {
                            return SearchStep::NoGoodValue(self.sample);
                        }
                    }
                    // First-iteration midpoint retry toward the floor; the
                    // cursor never sits below the range, so this never
                    // fires and the jump below decides.
                    if self.iteration == 1 && self.sample.q + 1 < self.sample.min_q {
                        let mid = (self.sample.q + self.sample.min_q) / 2;
                        self.sample.set_q(mid);
                    } else {
                        let floor_q = self.sample.min_q;
                        self.sample.set_q(floor_q);
                    }
                    self.iteration = self.iteration + 1;
                    proof {
                        lemma_continue_inv(s0, *self, m);
                    }
                    SearchStep::Continue
                },
            }
        } else {
            // Not good enough: the score target is missed.
            self.lo_att = Ghost(Some(cur));
            if !small || self.sample.q == self.sample.max_q {
                return SearchStep::NoGoodValue(self.sample);
            }
            let u = self.upper_bound_index();
            match u {
                Some(i) => {
                    let upper: Sample = self.attempts[i];
                    proof {
                        // The tightest attempt above the cursor is exactly
                        // the recorded upper bracket.
                        assert(i < s0.attempts@.len()) by {
                            if i == s0.attempts@.len() {
                                assert(self.attempts@[i as int] == cur);
                            }
                        }
                        assert(s0.attempts@[i as int] == upper);
                        assert forall|j: int|
                            0 <= j < s0.attempts@.len() && #[trigger] s0.attempts@[j].q
                                > s0.sample.q implies s0.attempts@[j].q >= upper.q by {
                            assert(self.attempts@[j] == s0.attempts@[j]);
                        }
                        lemma_upper_tie(s0, upper);
                    }
                    if upper.q == self.sample.q + 1 {
                        // The space between the brackets is exhausted; the
                        // upper attempt is the candidate.
                        let upper_small = upper.enc.size_ratio <= self.cfg.max_size_ratio;
                        if upper_small {
                            return SearchStep::Accept(
                                Sample { prev_val: upper.val, prev_q: upper.q, ..upper },
                            );
                        } else {
                            return SearchStep::NoGoodValue(self.sample);
                        }
                    }
                    self.sample.vmaf_lerp_q(self.cfg.min_score, None, Some(&upper));
                    self.iteration = self.iteration + 1;
                    proof {
                        lemma_continue_inv(s0, *self, m);
                    }
                    SearchStep::Continue
                },
                None => {
                    proof {
                        // No recorded attempt sits above the cursor, so
                        // there is no upper bracket.
                        match s0.hi_att@ {
                            Some(b) => {
                                let bi = choose|k: int|
                                    0 <= k < s0.attempts@.len() && #[trigger] s0.attempts@[k]
                                        == b;
                                assert(self.attempts@[bi] == b);
                                assert(b.q <= s0.sample.q);
                                assert(false);
                            },
                            None => {},
                        }
                    }
                    // First-iteration midpoint retry toward the ceiling;
                    // the cursor never sits above the range, so this never
                    // fires and the jump below decides.
                    if self.iteration == 1 && self.sample.q > self.sample.max_q + 1 {
                        let mid = (self.sample.max_q + self.sample.q) / 2;
                        self.sample.set_q(mid);
                    } else {
                        let ceil_q = self.sample.max_q;
                        self.sample.set_q(ceil_q);
                    }
                    self.iteration = self.iteration + 1;
                    proof {
                        lemma_continue_inv(s0, *self, m);
                    }
                    SearchStep::Continue
                },
            }
        }
    }

    /// Computes the tolerance schedule for the current iteration.
    fn higher_tolerance(&self) -> (t: u64)
        requires
            1 <= self.iteration,
            self.cfg.increment_milli <= SCORE_CAP,
        ensures
            t == self.cfg.tolerance_spec(self.iteration as nat),
            t <= 0x10_0000_0000_0000,
    {
        if self.cfg.thorough {
            50
        } else if self.iteration >= TOLERANCE_SATURATION_ITERATION {
            TOLERANCE_SATURATED
        } else {
            let p = pow2_exec(self.iteration - 1);
            proof {
                crate::transform::lemma_pow2_le_32((self.iteration - 1) as nat);
                assert((self.cfg.increment_milli as nat) * (p as nat) <= (SCORE_CAP as nat) * (
                0x1_0000_0000 as nat)) by (nonlinear_arith)
                    requires
                        self.cfg.increment_milli <= SCORE_CAP,
                        p as nat <= 0x1_0000_0000,
                ;
            }
            let t = self.cfg.increment_milli * p / 10;
            proof {
                assert(t <= (SCORE_CAP as nat) * (0x1_0000_0000 as nat));
            }
            if t < 100 {
                100
            } else {
                t
            }
        }
    }
}

/// The number of oracle calls a search can ever make: the loop measure
/// starts at the width of the coordinate range plus two and strictly
/// shrinks, so iterations never reach past it.
pub open spec fn iteration_cap(cfg: SearchConfig) -> int {
    cfg.transform.forward_spec(cfg.max_value as nat) - cfg.transform.forward_spec(
        cfg.min_value as nat,
    ) + 2
}

/// Termination bound: a running search has made fewer oracle calls than the
/// width of its coordinate range allows — the loop can never run unbounded.
pub proof fn lemma_iteration_bound(s: SearchState)
    requires
        s.inv(),
    ensures
        s.iteration < iteration_cap(s.cfg),
{
}

/// Runs a whole search against a pre-recorded reply for every oracle call
/// the controller could possibly make, consuming them in order. Terminates
/// within `iteration_cap` steps, and returns exactly the fold of the
/// per-step decision over the replies.
pub fn run_search(cfg: SearchConfig, measurements: &Vec<Measurement>) -> (r: Result<
    Sample,
    SearchError,
>)
    requires
        forall|i: int| 0 <= i < measurements@.len() ==> #[trigger] measurements@[i].score
            <= SCORE_CAP,
        cfg.valid() ==> measurements@.len() >= iteration_cap(cfg),
    ensures
        (r matches Err(e) && e is InvalidConfig) <==> !cfg.valid(),
        cfg.valid() ==> r == run_search_at(
            cfg,
            initial_sample(cfg),
            None::<Sample>,
            None::<Sample>,
            1,
            measurements@,
            0,
            iteration_cap(cfg) as nat,
        ),
        r matches Ok(s) ==> s.enc.score > cfg.min_score && s.enc.size_ratio
            <= cfg.max_size_ratio,
        r matches Err(e) ==> (e matches SearchError::NoGoodValue(last) ==> last.enc.score
            <= cfg.min_score || last.enc.size_ratio > cfg.max_size_ratio),
{
    let ghost folded = run_search_at(
        cfg,
        initial_sample(cfg),
        None::<Sample>,
        None::<Sample>,
        1,
        measurements@,
        0,
        iteration_cap(cfg) as nat,
    );
    let mut state = match SearchState::new(cfg) {
        Ok(s) => s,
        Err(e) => {
            return Err(e);
        },
    };
    let n = measurements.len();
    let mut idx: usize = 0;
    loop
        invariant
            state.inv(),
            state.cfg == cfg,
            cfg.valid(),
            idx == state.iteration - 1,
            n == measurements@.len(),
            measurements@.len() >= iteration_cap(cfg),
            forall|i: int| 0 <= i < measurements@.len() ==> #[trigger] measurements@[i].score
                <= SCORE_CAP,
            folded == run_search_at(
                cfg,
                initial_sample(cfg),
                None::<Sample>,
                None::<Sample>,
                1,
                measurements@,
                0,
                iteration_cap(cfg) as nat,
            ),
            folded == run_search_at(
                cfg,
                state.sample,
                state.lo_att@,
                state.hi_att@,
                state.iteration as nat,
                measurements@,
                idx as int,
                (iteration_cap(cfg) - idx) as nat,
            ),
        decreases state.measure(),
    {
        proof {
            lemma_iteration_bound(state);
        }
        let ghost pre_sample = state.sample;
        let ghost pre_lo = state.lo_att@;
        let ghost pre_hi = state.hi_att@;
        let ghost pre_it = state.iteration;
        let ghost fuel = (iteration_cap(cfg) - idx) as nat;
        let m = measurements[idx];
        let step = state.evaluate(m);
        proof {
            // One unfolding of the fold matches the step just taken.
            assert(fuel >= 2);
            assert(folded == match decision_at(cfg, pre_sample, pre_lo, pre_hi, pre_it as nat,
                m,
            ) {
                Decision::AcceptCurrent => Ok::<Sample, SearchError>(
                    current_result_at(pre_sample, m),
                ),
                Decision::AcceptUpper => Ok(upper_result_at(pre_sample, pre_hi)),
                Decision::Fail => Err(SearchError::NoGoodValue(current_result_at(pre_sample, m))),
                Decision::Narrow => run_search_at(
                    cfg,
                    next_sample_at(cfg, pre_sample, pre_lo, pre_hi, m),
                    step_lo_at(cfg, pre_sample, pre_lo, m),
                    step_hi_at(cfg, pre_sample, pre_hi, m),
                    pre_it as nat + 1,
                    measurements@,
                    idx + 1,
                    (fuel - 1) as nat,
                ),
            });
        }
        match step {
            SearchStep::Accept(s) => {
                return Ok(s);
            },
            SearchStep::NoGoodValue(s) => {
                return Err(SearchError::NoGoodValue(s));
            },
            SearchStep::Continue => {
                proof {
                    lemma_iteration_bound(state);
                }
                idx = idx + 1;
            },
        }
    }
}

/// The tightest recorded attempt strictly below the cursor is the lower
/// bracket witness itself.
proof fn lemma_lower_tie(s0: SearchState, lower: Sample)
    requires
        s0.inv(),
        exists|i: int| 0 <= i < s0.attempts@.len() && #[trigger] s0.attempts@[i] == lower,
        lower.q < s0.sample.q,
        forall|j: int|
            0 <= j < s0.attempts@.len() && #[trigger] s0.attempts@[j].q < s0.sample.q
                ==> s0.attempts@[j].q <= lower.q,
    ensures
        s0.lo_att@ == Some(lower),
        lower.q == s0.lo_q(),
        !s0.attempt_good(lower),
{
    let li = choose|i: int| 0 <= i < s0.attempts@.len() && #[trigger] s0.attempts@[i] == lower;
    assert(!s0.attempt_good(lower)) by {
        if s0.attempt_good(lower) {
            assert(lower.q >= s0.hi_q());
        }
    }
    assert(lower.q <= s0.lo_q());
    match s0.lo_att@ {
        Some(a) => {
            let ai = choose|i: int|
                0 <= i < s0.attempts@.len() && #[trigger] s0.attempts@[i] == a;
            assert(a.q == s0.lo_q() < s0.sample.q);
            assert(a.q <= lower.q);
            assert(a.q == lower.q);
            if ai != li {
                assert(s0.attempts@[ai].q != s0.attempts@[li].q);
            }
            assert(a == lower);
        },
        None => {
            assert(lower.q <= s0.sample.min_q - 1);
            assert(s0.sample.min_q <= lower.q);
        },
    }
}

/// The tightest recorded attempt strictly above the cursor is the upper
/// bracket witness itself.
proof fn lemma_upper_tie(s0: SearchState, upper: Sample)
    requires
        s0.inv(),
        exists|i: int| 0 <= i < s0.attempts@.len() && #[trigger] s0.attempts@[i] == upper,
        upper.q > s0.sample.q,
        forall|j: int|
            0 <= j < s0.attempts@.len() && #[trigger] s0.attempts@[j].q > s0.sample.q
                ==> s0.attempts@[j].q >= upper.q,
    ensures
        s0.hi_att@ == Some(upper),
        upper.q == s0.hi_q(),
        s0.attempt_good(upper),
{
    let ui = choose|i: int| 0 <= i < s0.attempts@.len() && #[trigger] s0.attempts@[i] == upper;
    assert(s0.attempt_good(upper)) by {
        if !s0.attempt_good(upper) {
            assert(upper.q <= s0.lo_q());
        }
    }
    assert(upper.q >= s0.hi_q());
    match s0.hi_att@ {
        Some(b) => {
            let bi = choose|i: int|
                0 <= i < s0.attempts@.len() && #[trigger] s0.attempts@[i] == b;
            assert(b.q == s0.hi_q() > s0.sample.q);
            assert(b.q >= upper.q);
            assert(b.q == upper.q);
            if bi != ui {
                assert(s0.attempts@[bi].q != s0.attempts@[ui].q);
            }
            assert(b == upper);
        },
        None => {
            assert(upper.q >= s0.sample.max_q + 1);
            assert(upper.q <= s0.sample.max_q);
        },
    }
}

/// A continued iteration re-establishes the controller invariant and
/// strictly shrinks the bracket.
proof fn lemma_continue_inv(s0: SearchState, s1: SearchState, m: Measurement)
    requires
        s0.inv(),
        m.score <= SCORE_CAP,
        s1.cfg == s0.cfg,
        s1.attempts@ == s0.attempts@.push(s0.recorded_attempt(m)),
        s1.iteration == s0.iteration + 1,
        s1.sample.wf(),
        s1.sample.val_tracks_q(),
        s1.sample.min_q == s0.sample.min_q,
        s1.sample.max_q == s0.sample.max_q,
        s1.sample.inc == s0.sample.inc,
        s1.sample.transform == s0.sample.transform,
        m.score > s0.cfg.min_score ==> {
            &&& s1.hi_att@ == Some(s0.recorded_attempt(m))
            &&& s1.lo_att@ == s0.lo_att@
            &&& s0.lo_q() < s1.sample.q < s0.sample.q
        },
        m.score <= s0.cfg.min_score ==> {
            &&& s1.lo_att@ == Some(s0.recorded_attempt(m))
            &&& s1.hi_att@ == s0.hi_att@
            &&& s0.sample.q < s1.sample.q < s0.hi_q()
        },
    ensures
        s1.inv(),
        s1.measure() < s0.measure(),
{
    lemma_trial_val_in_range(
        s0.cfg.transform,
        s0.cfg.min_value,
        s0.cfg.max_value,
        s1.sample.min_q,
        s1.sample.max_q,
        s1.sample.inc,
        s1.sample.q,
    );
    let cur = s0.recorded_attempt(m);
    let n = s0.attempts@.len() as int;
    assert(cur.q == s0.sample.q);
    assert(s1.attempts@[n] == cur);
    assert(forall|i: int| 0 <= i < n ==> #[trigger] s1.attempts@[i] == s0.attempts@[i]);
    if m.score > s0.cfg.min_score {
        assert(s1.hi_q() == s0.sample.q as int);
        assert(s1.lo_q() == s0.lo_q());
        assert forall|i: int| 0 <= i < s1.attempts@.len() implies {
            let a = #[trigger] s1.attempts@[i];
            &&& s1.sample.min_q <= a.q <= s1.sample.max_q
            &&& a.enc.score <= SCORE_CAP
            &&& (s1.attempt_good(a) ==> a.q >= s1.hi_q())
            &&& (!s1.attempt_good(a) ==> a.q <= s1.lo_q())
        } by {
            if i < n {
                assert(s1.attempts@[i] == s0.attempts@[i]);
                let a = s0.attempts@[i];
                if s0.attempt_good(a) {
                    assert(a.q >= s0.hi_q() > s0.sample.q);
                }
            }
        }
        assert forall|i: int, j: int| 0 <= i < j < s1.attempts@.len() implies #[trigger] s1
            .attempts@[i].q != #[trigger] s1.attempts@[j].q by {
            if j < n {
                assert(s0.attempts@[i].q != s0.attempts@[j].q);
            } else {
                let a = s0.attempts@[i];
                if s0.attempt_good(a) {
                    assert(a.q >= s0.hi_q() > cur.q);
                } else {
                    assert(a.q <= s0.lo_q() < cur.q);
                }
            }
        }
        match s1.lo_att@ {
            Some(a) => {
                let ai = choose|i: int|
                    0 <= i < s0.attempts@.len() && #[trigger] s0.attempts@[i] == a;
                assert(s1.attempts@[ai] == a);
            },
            None => {},
        }
    } else {
        assert(s1.lo_q() == s0.sample.q as int);
        assert(s1.hi_q() == s0.hi_q());
        assert forall|i: int| 0 <= i < s1.attempts@.len() implies {
            let a = #[trigger] s1.attempts@[i];
            &&& s1.sample.min_q <= a.q <= s1.sample.max_q
            &&& a.enc.score <= SCORE_CAP
            &&& (s1.attempt_good(a) ==> a.q >= s1.hi_q())
            &&& (!s1.attempt_good(a) ==> a.q <= s1.lo_q())
        } by {
            if i < n {
                assert(s1.attempts@[i] == s0.attempts@[i]);
                let a = s0.attempts@[i];
                if !s0.attempt_good(a) {
                    assert(a.q <= s0.lo_q() < s0.sample.q);
                }
            }
        }
        assert forall|i: int, j: int| 0 <= i < j < s1.attempts@.len() implies #[trigger] s1
            .attempts@[i].q != #[trigger] s1.attempts@[j].q by {
            if j < n {
                assert(s0.attempts@[i].q != s0.attempts@[j].q);
            } else {
                let a = s0.attempts@[i];
                if s0.attempt_good(a) {
                    assert(a.q >= s0.hi_q() > cur.q);
                } else {
                    assert(a.q <= s0.lo_q() < cur.q);
                }
            }
        }
        match s1.hi_att@ {
            Some(b) => {
                let bi = choose|i: int|
                    0 <= i < s0.attempts@.len() && #[trigger] s0.attempts@[i] == b;
                assert(s1.attempts@[bi] == b);
            },
            None => {},
        }
    }
}


} // verus!
