use vstd::prelude::*;

verus! {

/// Tuning constants of the pipeline. The algorithm's shape does not depend
/// on them; they trade quality against cost and set the merge sensitivity.
#[derive(Debug, Clone, Copy, PartialEq, Eq, Structural)]
pub struct AnalysisConfig {
    /// Target superpixel count per requested cluster: S = k * multiplier.
    pub superpixel_multiplier: u32,
    /// Compactness factor in Lab units: larger values give more regular,
    /// blob-like superpixels; smaller ones follow color edges.
    pub compactness: u32,
    /// Cap on superpixel refinement rounds.
    pub slic_iterations: u32,
    /// Cap on palette clustering rounds.
    pub cluster_iterations: u32,
    /// Clusters closer than this distance, in Lab units, are merged.
    pub merge_threshold: u32,
    /// Emit an intermediate visualization event after segmentation.
    pub emit_intermediate: bool,
}

impl AnalysisConfig {
    /// The bounds under which every pipeline stage is safe.
    pub open spec fn wf(&self) -> bool {
        &&& 1 <= self.superpixel_multiplier <= 1024
        &&& 1 <= self.compactness <= 100
        &&& 1 <= self.slic_iterations <= 64
        &&& 1 <= self.cluster_iterations <= 64
        &&& self.merge_threshold <= 100
    }
}

impl AnalysisConfig {
    /// Clamp every field into the range the pipeline is proved safe for.
    pub fn normalized(&self) -> (c: AnalysisConfig)
        ensures
            c.wf(),
            c.emit_intermediate == self.emit_intermediate,
            self.wf() ==> c == *self,
    {
        AnalysisConfig {
            superpixel_multiplier: clamp_u32(self.superpixel_multiplier, 1, 1024),
            compactness: clamp_u32(self.compactness, 1, 100),
            slic_iterations: clamp_u32(self.slic_iterations, 1, 64),
            cluster_iterations: clamp_u32(self.cluster_iterations, 1, 64),
            merge_threshold: clamp_u32(self.merge_threshold, 0, 100),
            emit_intermediate: self.emit_intermediate,
        }
    }
}

/// Clamp a value into an inclusive range.
fn clamp_u32(v: u32, lo: u32, hi: u32) -> (r: u32)
    requires
        lo <= hi,
    ensures
        lo <= r <= hi,
        lo <= v <= hi ==> r == v,
{
    if v < lo {
        lo
    } else if v > hi {
        hi
    } else {
        v
    }
}

impl Default for AnalysisConfig {
    /// Documented defaults: about forty superpixels per requested cluster, a
    /// moderate compactness of ten, ten refinement rounds per clustering
    /// stage, and a merge threshold of ten Lab units (a few just-noticeable
    /// differences).
    fn default() -> (c: AnalysisConfig)
        ensures
            c.wf(),
            c == (AnalysisConfig {
                superpixel_multiplier: 40,
                compactness: 10,
                slic_iterations: 10,
                cluster_iterations: 10,
                merge_threshold: 10,
                emit_intermediate: false,
            }),
    {
        AnalysisConfig {
            superpixel_multiplier: 40,
            compactness: 10,
            slic_iterations: 10,
            cluster_iterations: 10,
            merge_threshold: 10,
            emit_intermediate: false,
        }
    }
}

} // verus!
