//! Effectiveness metrics for a probe, computed from the counts a
//! downstream exact evaluator reports.
//!
//! Rates are carried in parts per million (millionths), so the arithmetic
//! stays exact and verifiable: a false-positive rate of 0.10 is 100000,
//! a reduction ratio of 0.95 is 950000.

use vstd::prelude::*;

verus! {

/// One million: the fixed-point scale of the two rate fields.
pub const PPM: u64 = 1000000;

/// Metrics of one query: how many candidates the index returned, how many
/// were true matches, and the derived rates.
#[derive(Debug)]
pub struct HolodexMetrics {
    /// The size of the indexed collection.
    pub total_docs: usize,
    /// How many positions the probe returned.
    pub candidates: usize,
    /// How many candidates the exact predicate confirmed.
    pub true_matches: usize,
    /// Candidates that were not true matches.
    pub false_positives: usize,
    /// `false_positives / candidates`, in millionths; 0 when there were
    /// no candidates.
    pub false_positive_rate_ppm: u64,
    /// `1 - candidates / total_docs`, in millionths.
    pub reduction_ratio_ppm: u64,
}

impl HolodexMetrics {
    /// Derive the metrics from the three counts. `false_positives` uses
    /// saturating subtraction, so a caller reporting more true matches
    /// than candidates gets 0 rather than an underflow.
    pub fn calculate(total_docs: usize, candidates: usize, true_matches: usize) -> (r:
        HolodexMetrics)
        requires
            1 <= total_docs,
            candidates <= total_docs,
        ensures
            r.total_docs == total_docs,
            r.candidates == candidates,
            r.true_matches == true_matches,
            r.false_positives == if candidates >= true_matches {
                candidates - true_matches
            } else {
                0
            },
            r.false_positive_rate_ppm == if candidates > 0 {
                (r.false_positives * PPM) as int / candidates as int
            } else {
                0
            },
            r.reduction_ratio_ppm == PPM - (candidates * PPM) as int / total_docs as int,
    {
        let false_positives = candidates.saturating_sub(true_matches);
        let fpr_ppm: u64 = if candidates > 0 {
            proof {
                assert((false_positives as u128 * PPM as u128) as int / (candidates as u128) as int
                    <= PPM) by (nonlinear_arith)
                    requires
                        false_positives <= candidates,
                        candidates > 0,
                ;
            }
            ((false_positives as u128 * PPM as u128) / (candidates as u128)) as u64
        } else {
            0
        };
        proof {
            assert((candidates as u128 * PPM as u128) as int / (total_docs as u128) as int
                <= PPM) by (nonlinear_arith)
                requires
                    candidates <= total_docs,
                    total_docs > 0,
            ;
        }
        let occupancy: u64 = ((candidates as u128 * PPM as u128) / (total_docs as u128)) as u64;
        let red_ppm: u64 = PPM - occupancy;
        HolodexMetrics {
            total_docs,
            candidates,
            true_matches,
            false_positives,
            false_positive_rate_ppm: fpr_ppm,
            reduction_ratio_ppm: red_ppm,
        }
    }
}

} // verus!
