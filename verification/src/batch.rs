//! The outcomes of a finished batch, held together with the figures drawn
//! from them.

use crate::dispatch::outcomes_view;
use crate::response::{Outcome, PyResponse};
use crate::stats::{
    codes_of, durations_of, histograms_defined, is_summary_of, summarize, IndexError, Report,
    StatsError,
};
use vstd::prelude::*;

verus! {

/// The figures of a batch: what each request took, what each came back
/// with, and what the batch took as a whole.
#[derive(Debug, Clone, PartialEq, Eq)]
pub struct ResponseStats {
    /// Milliseconds of each outcome, in the order of the outcomes.
    pub durations: Vec<u64>,
    /// Status code of each outcome, in the order of the outcomes.
    pub responses: Vec<u16>,
    /// Milliseconds from the start of the batch to its last outcome. This
    /// is not the sum of `durations`.
    pub total_duration: u64,
}

impl ResponseStats {
    /// The two lists are those of `outcomes`.
    pub open spec fn describes(&self, outcomes: Seq<Outcome>) -> bool {
        &&& self.durations@ == durations_of(outcomes)
        &&& self.responses@ == codes_of(outcomes)
    }

    /// The figures of `responses`, for a batch that took `total_duration`.
    pub fn of(responses: &Vec<PyResponse>, total_duration: u64) -> (r: Self)
        ensures
            r.describes(outcomes_view(responses@)),
            r.total_duration == total_duration,
    {
        let mut durations: Vec<u64> = Vec::new();
        let mut codes: Vec<u16> = Vec::new();
        let mut i: usize = 0;
        while i < responses.len()
            invariant
                i <= responses.len(),
                durations.len() == i,
                codes.len() == i,
                forall|k: int| 0 <= k < i ==> durations[k] == responses[k].duration,
                forall|k: int| 0 <= k < i ==> codes[k] == responses[k].status_code,
            decreases responses.len() - i,
        {
            durations.push(responses[i].duration);
            codes.push(responses[i].status_code);
            i += 1;
        }
        assert(durations@ =~= durations_of(outcomes_view(responses@)));
        assert(codes@ =~= codes_of(outcomes_view(responses@)));
        ResponseStats { durations, responses: codes, total_duration }
    }
}

/// A finished batch.
#[derive(Debug, Clone, PartialEq, Eq)]
pub struct PyAsyncResponses {
    /// The outcomes, in the order in which the requests ended.
    pub responses: Vec<PyResponse>,
    pub responses_stats: ResponseStats,
}

impl PyAsyncResponses {
    /// The figures are those of the outcomes.
    pub open spec fn wf(&self) -> bool {
        self.responses_stats.describes(outcomes_view(self.responses@))
    }

    /// The batch of `responses`, which took `total_duration` milliseconds
    /// from its start to its last outcome.
    pub fn new(responses: Vec<PyResponse>, total_duration: u64) -> (r: Self)
        ensures
            r.wf(),
            r.responses == responses,
            r.responses_stats.total_duration == total_duration,
    {
        let responses_stats = ResponseStats::of(&responses, total_duration);
        PyAsyncResponses { responses, responses_stats }
    }

    /// The number of outcomes.
    pub fn amount(&self) -> (r: usize)
        ensures
            r == self.responses.len(),
    {
        self.responses.len()
    }

    /// The outcome at position `i` of the batch, counted in the order in
    /// which the requests ended.
    pub fn nth(&self, i: isize) -> (r: Result<&PyResponse, IndexError>)
        ensures
            match r {
                Ok(response) => 0 <= i < self.responses.len() && *response
                    == self.responses[i as int],
                Err(IndexError::Negative) => i < 0,
                Err(IndexError::OutOfBounds { index, size }) => i >= self.responses.len()
                    && index == i && size == self.responses.len(),
            },
    {
        if i < 0 {
            return Err(IndexError::Negative);
        }
        let index = i as usize;
        if index >= self.responses.len() {
            return Err(IndexError::OutOfBounds { index, size: self.responses.len() });
        }
        Ok(&self.responses[index])
    }

    /// The report on this batch, with latency buckets of `chunk`
    /// milliseconds and a cutoff of `cut_off` percent.
    pub fn summarize(&self, chunk: u64, cut_off: u32) -> (r: Result<Report, StatsError>)
        ensures
            r is Err <==> chunk == 0 && self.responses.len() > 0,
            r matches Err(e) ==> e == StatsError::ZeroBucketWidth,
            r matches Ok(report) ==> is_summary_of(
                report@,
                outcomes_view(self.responses@),
                self.responses_stats.total_duration,
                chunk,
                cut_off,
            ) && histograms_defined(outcomes_view(self.responses@), chunk),
    {
        summarize(&self.responses, self.responses_stats.total_duration, chunk, cut_off)
    }
}

} // verus!
