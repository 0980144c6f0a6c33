//! Heuristic board evaluator.
//!
//! The score is a weighted sum of the four board metrics. All weights are
//! signed fixed-point coefficients in hundredths of a unit (so -20 stands
//! for -0.2), which keeps the scoring exact and its ordering identical to
//! the weight tables' decimal values. Weights are conventionally negative:
//! every metric is a penalty, and a higher score is better.

use vstd::prelude::*;

use crate::board::{
    bumpiness, lemma_metrics_bounds, max_height as max_height_of, sum_heights, total_holes, Board,
};

verus! {

/// A named weight profile trading off stack height, peak height, surface
/// roughness, and holes.
#[derive(Clone, Copy, Debug, PartialEq, Eq, Structural)]
pub enum Strategy {
    Balanced,
    Aggressive,
    Defensive,
    TSpan,
}

/// The evaluator's result.
#[derive(Clone, Copy, Debug, Default, PartialEq, Eq, Structural)]
pub struct Evaluation {
    pub score: i64,
}

/// The four evaluator coefficients, in hundredths of a unit.
#[derive(Clone, Debug)]
pub struct EvaluationWeights {
    pub aggregate_height: i64,
    pub max_height: i64,
    pub bumpiness: i64,
    pub holes: i64,
}

/// The weight profile of each strategy (hundredths of a unit).
pub open spec fn spec_weights(strategy: Strategy) -> EvaluationWeights {
    match strategy {
        Strategy::Balanced => EvaluationWeights {
            aggregate_height: -20i64,
            max_height: -50i64,
            bumpiness: -30i64,
            holes: -1000i64,
        },
        Strategy::Aggressive => EvaluationWeights {
            aggregate_height: -10i64,
            max_height: -30i64,
            bumpiness: -20i64,
            holes: -800i64,
        },
        Strategy::Defensive => EvaluationWeights {
            aggregate_height: -80i64,
            max_height: -200i64,
            bumpiness: -50i64,
            holes: -1500i64,
        },
        Strategy::TSpan => EvaluationWeights {
            aggregate_height: -30i64,
            max_height: -80i64,
            bumpiness: -25i64,
            holes: -1200i64,
        },
    }
}

/// Weights small enough that a score over the bounded board metrics cannot
/// overflow an `i64`.
pub open spec fn weights_bounded(w: EvaluationWeights) -> bool {
    &&& -100000 <= w.aggregate_height <= 100000
    &&& -100000 <= w.max_height <= 100000
    &&& -100000 <= w.bumpiness <= 100000
    &&& -100000 <= w.holes <= 100000
}

/// The evaluator's score of a board under a weight profile.
pub open spec fn spec_score(rows: Seq<u32>, w: EvaluationWeights) -> int {
    sum_heights(rows, 10) * w.aggregate_height + max_height_of(rows, 10) * w.max_height
        + total_holes(rows, 10) * w.holes + bumpiness(rows, 9) * w.bumpiness
}

impl EvaluationWeights {
    /// The weight profile of the given strategy.
    pub fn new(strategy: Strategy) -> (w: Self)
        ensures
            w == spec_weights(strategy),
            weights_bounded(w),
    {
        match strategy {
            Strategy::Balanced => Self {
                aggregate_height: -20,
                max_height: -50,
                bumpiness: -30,
                holes: -1000,
            },
            Strategy::Aggressive => Self {
                aggregate_height: -10,
                max_height: -30,
                bumpiness: -20,
                holes: -800,
            },
            Strategy::Defensive => Self {
                aggregate_height: -80,
                max_height: -200,
                bumpiness: -50,
                holes: -1500,
            },
            Strategy::TSpan => Self {
                aggregate_height: -30,
                max_height: -80,
                bumpiness: -25,
                holes: -1200,
            },
        }
    }
}

impl Default for EvaluationWeights {
    /// A general-purpose profile used when no strategy is named.
    fn default() -> (w: Self)
        ensures
            w == (EvaluationWeights {
                aggregate_height: -51i64,
                max_height: -176i64,
                bumpiness: -18i64,
                holes: -36i64,
            }),
            weights_bounded(w),
    {
        Self { aggregate_height: -51, max_height: -176, bumpiness: -18, holes: -36 }
    }
}

impl Board {
    /// Scores the board: each metric times its weight, summed. Pure; a
    /// higher score is better.
    pub fn evaluate(&self, weights: &EvaluationWeights) -> (e: Evaluation)
        requires
            weights_bounded(*weights),
        ensures
            e.score as int == spec_score(self.rows@, *weights),
    {
        let (total_height, max_h, holes, bump) = self.get_evaluation_metrics();
        proof {
            lemma_metrics_bounds(self.rows@);
            assert(-40000000 <= total_height as int * weights.aggregate_height <= 40000000)
                by (nonlinear_arith)
                requires
                    0 <= total_height as int <= 400,
                    -100000 <= weights.aggregate_height <= 100000,
            ;
            assert(-4000000 <= max_h as int * weights.max_height <= 4000000) by (nonlinear_arith)
                requires
                    0 <= max_h as int <= 40,
                    -100000 <= weights.max_height <= 100000,
            ;
            assert(-40000000 <= holes as int * weights.holes <= 40000000) by (nonlinear_arith)
                requires
                    0 <= holes as int <= 400,
                    -100000 <= weights.holes <= 100000,
            ;
            assert(-36000000 <= bump as int * weights.bumpiness <= 36000000) by (nonlinear_arith)
                requires
                    0 <= bump as int <= 360,
                    -100000 <= weights.bumpiness <= 100000,
            ;
        }
        let score: i64 = (total_height as i64) * weights.aggregate_height + (max_h as i64)
            * weights.max_height + (holes as i64) * weights.holes + (bump as i64)
            * weights.bumpiness;
        Evaluation { score }
    }
}

} // verus!
