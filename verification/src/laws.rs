use vstd::prelude::*;
use crate::pipeline::{cc_pcts, AnalysisResult};
use crate::util::sum64;

verus! {

/// Every entry of a well-formed analysis result's segmentation map indexes
/// an existing final cluster: the per-pixel map never points outside the
/// palette, whatever image and palette size produced the result.
pub proof fn lemma_map_entries_index_clusters(res: &AnalysisResult, p: int)
    requires
        res.wf(),
        0 <= p < res.segmentation_map@.len(),
    ensures
        res.segmentation_map@[p] < res.clusters@.len(),
{
}

/// The percentages of a well-formed analysis result sum to 100%
/// (1_000_000 units) within a deficit smaller than one unit per cluster —
/// for the at most 256 clusters a result can hold, far inside a tenth of a
/// percentage point.
pub proof fn lemma_percentages_sum_to_whole(res: &AnalysisResult)
    requires
        res.wf(),
    ensures
        1000000 - res.clusters@.len() < sum64(cc_pcts(res.clusters@)),
        sum64(cc_pcts(res.clusters@)) <= 1000000,
        1000000 - 256 < sum64(cc_pcts(res.clusters@)),
{
}

} // verus!
