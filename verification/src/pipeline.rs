use vstd::prelude::*;

use crate::config::PeckishConfig;
use vstd::string::StringExecFns;

verus! {

/// Runs a configured pipeline: validate the input, then for each producer
/// validate it, feed it its input, and validate its output. The library
/// decides the sequencing — in particular which artifact each stage
/// consumes — and the I/O around each stage happens at the boundary.
#[derive(Debug)]
pub struct Pipeline {
    pub report_file: Option<String>,
}

/// Which artifact stage `k` consumes: the output of the stage before it
/// when chaining, and the original input otherwise. `None` names the
/// original input.
pub open spec fn stage_input_spec(chain: bool, k: int) -> Option<int> {
    if chain && k > 0 {
        Some(k - 1)
    } else {
        None
    }
}

impl Pipeline {
    pub fn new(report_file: Option<String>) -> (r: Pipeline)
        ensures
            r.report_file == report_file,
    {
        Pipeline { report_file }
    }

    /// Which artifact stage `k` consumes, as an index into the produced
    /// artifacts; `None` names the original input.
    pub fn stage_input(&self, chain: bool, k: usize) -> (r: Option<usize>)
        ensures
            match r {
                Some(i) => stage_input_spec(chain, k as int) == Some(i as int),
                None => stage_input_spec(chain, k as int) is None,
            },
    {
        if chain && k > 0 {
            Some(k - 1)
        } else {
            None
        }
    }

    /// How many stages the configured pipeline runs.
    pub fn stage_count(&self, config: &PeckishConfig) -> (r: usize)
        ensures
            r == config.output@.len(),
    {
        config.output.len()
    }
}

/// Without chaining, every stage consumes the original input.
pub proof fn lemma_fanout_consumes_original(k: int)
    ensures
        stage_input_spec(false, k) is None,
{
}

/// With chaining, every stage after the first consumes its predecessor's
/// output, and the first consumes the original input.
pub proof fn lemma_chain_consumes_previous(k: int)
    requires
        k > 0,
    ensures
        stage_input_spec(true, k) == Some(k - 1),
        stage_input_spec(true, 0) is None,
{
}


/// One phase of a pipeline run. A run validates the input, then for each
/// stage validates the producer, extracts the stage's input, produces, and
/// validates the produced artifact; any failure aborts the remaining
/// stages.
#[derive(Debug, Clone, Copy, PartialEq, Eq, Structural)]
pub enum PipelineStep {
    ValidateInput,
    ValidateProducer(usize),
    Extract(usize),
    Produce(usize),
    ValidateOutput(usize),
    Done,
    Failed,
}

/// The successor of a phase: on a failed phase the run aborts; otherwise
/// the phases run in their fixed order, and after a stage's output is
/// validated the next stage begins, until none is left.
pub open spec fn advance_spec(n: nat, cur: PipelineStep, ok: bool) -> PipelineStep {
    if !ok {
        PipelineStep::Failed
    } else {
        match cur {
            PipelineStep::ValidateInput => if n == 0 {
                PipelineStep::Done
            } else {
                PipelineStep::ValidateProducer(0)
            },
            PipelineStep::ValidateProducer(k) => PipelineStep::Extract(k),
            PipelineStep::Extract(k) => PipelineStep::Produce(k),
            PipelineStep::Produce(k) => PipelineStep::ValidateOutput(k),
            PipelineStep::ValidateOutput(k) => if k + 1 < n {
                PipelineStep::ValidateProducer((k + 1) as usize)
            } else {
                PipelineStep::Done
            },
            PipelineStep::Done => PipelineStep::Done,
            PipelineStep::Failed => PipelineStep::Failed,
        }
    }
}

impl Pipeline {
    /// Advances the run by one phase, given whether the phase just
    /// finished succeeded.
    pub fn advance(&self, n: usize, cur: PipelineStep, ok: bool) -> (r: PipelineStep)
        ensures
            r == advance_spec(n as nat, cur, ok),
    {
        if !ok {
            return PipelineStep::Failed;
        }
        match cur {
            PipelineStep::ValidateInput => {
                if n == 0 {
                    PipelineStep::Done
                } else {
                    PipelineStep::ValidateProducer(0)
                }
            },
            PipelineStep::ValidateProducer(k) => PipelineStep::Extract(k),
            PipelineStep::Extract(k) => PipelineStep::Produce(k),
            PipelineStep::Produce(k) => PipelineStep::ValidateOutput(k),
            PipelineStep::ValidateOutput(k) => {
                if k < n && k + 1 < n {
                    PipelineStep::ValidateProducer(k + 1)
                } else {
                    PipelineStep::Done
                }
            },
            PipelineStep::Done => PipelineStep::Done,
            PipelineStep::Failed => PipelineStep::Failed,
        }
    }
}

/// Any failed phase aborts the run: no later phase follows it.
pub proof fn lemma_failure_aborts(n: nat, cur: PipelineStep)
    ensures
        advance_spec(n, cur, false) == PipelineStep::Failed,
        advance_spec(n, PipelineStep::Failed, true) == PipelineStep::Failed,
{
}

/// A stage's phases run in their fixed order: producer validation, then
/// input extraction, then production, then output validation.
pub proof fn lemma_stage_order(n: nat, k: usize)
    ensures
        advance_spec(n, PipelineStep::ValidateProducer(k), true) == PipelineStep::Extract(k),
        advance_spec(n, PipelineStep::Extract(k), true) == PipelineStep::Produce(k),
        advance_spec(n, PipelineStep::Produce(k), true) == PipelineStep::ValidateOutput(k),
{
}

} // verus!
