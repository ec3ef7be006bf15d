//! Dataset load scheduling.
//!
//! A round-robin cursor over a fixed, ordered list of time-slice datasets.
//! Queuing marks "load next" pending; when the pending dataset's bytes have
//! been fetched and tessellated (or have failed), the cursor advances modulo
//! the list length either way, so a failed layer is skipped on the next
//! cycle rather than retried, and on failure the previously displayed mesh
//! is retained because nothing is replaced.
use vstd::prelude::*;

verus! {

/// Why a dataset load was abandoned. The variants mirror the load pipeline:
/// bytes that are not text, text that is not the expected input format,
/// geometry the tessellator rejected, and a label backend failure.
#[derive(Clone, Copy, Debug, PartialEq, Eq, Structural)]
pub enum LoaderError {
    InvalidPath,
    InvalidGeoJson,
    BrokenGeometry,
    LabelFailure,
}

/// The round-robin dataset scheduler.
pub struct FeatureManager {
    pub idx: usize,
    pub feature_count: usize,
    pub queued: bool,
}

impl FeatureManager {
    /// The cursor always points at a dataset of the list.
    pub open spec fn wf(&self) -> bool {
        &&& self.feature_count > 0
        &&& self.idx < self.feature_count
    }

    /// A scheduler over a list of `feature_count` datasets, with the first
    /// load already queued.
    pub fn new(feature_count: usize) -> (r: FeatureManager)
        requires
            feature_count > 0,
        ensures
            r.wf(),
            r.idx == 0,
            r.feature_count == feature_count,
            r.queued == true,
    {
        FeatureManager { idx: 0, feature_count, queued: true }
    }

    /// Mark "load next" pending.
    pub fn queue(&mut self)
        ensures
            *final(self) == (FeatureManager { queued: true, ..*old(self) }),
    {
        self.queued = true;
    }

    /// Which dataset to fetch now: the cursor's dataset while a load is
    /// pending, nothing otherwise.
    pub fn pending(&self) -> (r: Option<usize>)
        ensures
            self.queued ==> r == Some(self.idx),
            !self.queued ==> r is None,
    {
        if self.queued {
            Some(self.idx)
        } else {
            None
        }
    }

    /// The pending load finished: the cursor advances modulo the list length
    /// whether or not the dataset could be used, and only a usable one
    /// clears the pending mark (so only then is the displayed mesh
    /// replaced; a failed layer leaves it untouched and is skipped on the
    /// next cycle).
    pub fn complete_load(&mut self, success: bool) -> (replace: bool)
        requires
            old(self).wf(),
            old(self).queued,
        ensures
            final(self).wf(),
            final(self).feature_count == old(self).feature_count,
            final(self).idx == (old(self).idx + 1) as int % old(self).feature_count as int,
            final(self).queued == !success,
            replace == success,
    {
        self.idx = (self.idx + 1) % self.feature_count;
        self.queued = !success;
        success
    }
}

} // verus!
