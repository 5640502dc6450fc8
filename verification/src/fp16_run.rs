//! The order of a run of the precision experiment: every pair first generates
//! the caches of both arms and then measures both, each arm against its own.
use crate::fp16_args::MAX_PAIRS;
use crate::fp16_environment::{arm_at, Precision, WorkerPhase};
use vstd::prelude::*;

verus! {

/// What is done for one arm of a pair, in order: first to generate its cache,
/// later to measure with it.
#[derive(Clone, Copy, Debug, PartialEq, Eq, Structural)]
pub enum ArmTask {
    LaunchGeneration,
    CheckGenerationOutput,
    CheckGenerationProvenance,
    InventoryGenerated,
    ProtectArtifacts,
    RecordProvenance,
    ReadRecordedProvenance,
    InventoryBefore,
    LaunchMeasurement,
    CheckMeasurementOutput,
    CheckMeasurementProvenance,
    InventoryAfter,
    ReadProvenanceAgain,
    CompareProvenance,
}

/// Whether a task belongs to the generation of a cache.
pub open spec fn is_generation(task: ArmTask) -> bool {
    task_number(task) < 6
}

/// The number of a task: six to generate a cache, eight to measure with it.
pub open spec fn task_number(task: ArmTask) -> int {
    match task {
        ArmTask::LaunchGeneration => 0,
        ArmTask::CheckGenerationOutput => 1,
        ArmTask::CheckGenerationProvenance => 2,
        ArmTask::InventoryGenerated => 3,
        ArmTask::ProtectArtifacts => 4,
        ArmTask::RecordProvenance => 5,
        ArmTask::ReadRecordedProvenance => 6,
        ArmTask::InventoryBefore => 7,
        ArmTask::LaunchMeasurement => 8,
        ArmTask::CheckMeasurementOutput => 9,
        ArmTask::CheckMeasurementProvenance => 10,
        ArmTask::InventoryAfter => 11,
        ArmTask::ReadProvenanceAgain => 12,
        ArmTask::CompareProvenance => 13,
    }
}

/// What a run does next.
#[derive(Clone, Copy, Debug, PartialEq, Eq, Structural)]
pub enum RunStep {
    PinCorpus,
    CreateLayout,
    Arm { pair: usize, second: bool, task: ArmTask },
    BuildReport,
    WriteResult,
    PrintResult,
    Passed,
    GatesRejected,
    Failed,
}

/// How a step ended.
#[derive(Clone, Copy, Debug, PartialEq, Eq, Structural)]
pub enum RunReply {
    Done,
    /// The report was built, and its gates were passed or not.
    Built { passed: bool },
    Failed,
}

/// A run of the experiment.
#[derive(Clone, Copy, Debug, PartialEq, Eq, Structural)]
pub struct ParentRun {
    pub pairs: usize,
    pub passed: bool,
    pub step: RunStep,
}

/// The place of a step in a run, counted from its beginning.
pub open spec fn place(step: RunStep, pairs: usize) -> int {
    match step {
        RunStep::PinCorpus => 0,
        RunStep::CreateLayout => 1,
        RunStep::Arm { pair, second, task } => {
            let arm: int = if second {
                1
            } else {
                0
            };
            2 + 28 * pair + if is_generation(task) {
                6 * arm + task_number(task)
            } else {
                6 + 8 * arm + task_number(task)
            }
        },
        RunStep::BuildReport => 2 + 28 * pairs,
        RunStep::WriteResult => 3 + 28 * pairs,
        RunStep::PrintResult => 4 + 28 * pairs,
        RunStep::Passed => 5 + 28 * pairs,
        RunStep::GatesRejected => 5 + 28 * pairs,
        RunStep::Failed => -1,
    }
}

/// Whether a run is over.
pub open spec fn is_over(step: RunStep) -> bool {
    step is Passed || step is GatesRejected || step is Failed
}

/// The task behind another of the same kind, if there is one.
pub open spec fn task_after(task: ArmTask) -> Option<ArmTask> {
    match task {
        ArmTask::LaunchGeneration => Some(ArmTask::CheckGenerationOutput),
        ArmTask::CheckGenerationOutput => Some(ArmTask::CheckGenerationProvenance),
        ArmTask::CheckGenerationProvenance => Some(ArmTask::InventoryGenerated),
        ArmTask::InventoryGenerated => Some(ArmTask::ProtectArtifacts),
        ArmTask::ProtectArtifacts => Some(ArmTask::RecordProvenance),
        ArmTask::RecordProvenance => None,
        ArmTask::ReadRecordedProvenance => Some(ArmTask::InventoryBefore),
        ArmTask::InventoryBefore => Some(ArmTask::LaunchMeasurement),
        ArmTask::LaunchMeasurement => Some(ArmTask::CheckMeasurementOutput),
        ArmTask::CheckMeasurementOutput => Some(ArmTask::CheckMeasurementProvenance),
        ArmTask::CheckMeasurementProvenance => Some(ArmTask::InventoryAfter),
        ArmTask::InventoryAfter => Some(ArmTask::ReadProvenanceAgain),
        ArmTask::ReadProvenanceAgain => Some(ArmTask::CompareProvenance),
        ArmTask::CompareProvenance => None,
    }
}

fn next_task(task: ArmTask) -> (next: Option<ArmTask>)
    ensures
        next == task_after(task),
{
    match task {
        ArmTask::LaunchGeneration => Some(ArmTask::CheckGenerationOutput),
        ArmTask::CheckGenerationOutput => Some(ArmTask::CheckGenerationProvenance),
        ArmTask::CheckGenerationProvenance => Some(ArmTask::InventoryGenerated),
        ArmTask::InventoryGenerated => Some(ArmTask::ProtectArtifacts),
        ArmTask::ProtectArtifacts => Some(ArmTask::RecordProvenance),
        ArmTask::RecordProvenance => None,
        ArmTask::ReadRecordedProvenance => Some(ArmTask::InventoryBefore),
        ArmTask::InventoryBefore => Some(ArmTask::LaunchMeasurement),
        ArmTask::LaunchMeasurement => Some(ArmTask::CheckMeasurementOutput),
        ArmTask::CheckMeasurementOutput => Some(ArmTask::CheckMeasurementProvenance),
        ArmTask::CheckMeasurementProvenance => Some(ArmTask::InventoryAfter),
        ArmTask::InventoryAfter => Some(ArmTask::ReadProvenanceAgain),
        ArmTask::ReadProvenanceAgain => Some(ArmTask::CompareProvenance),
        ArmTask::CompareProvenance => None,
    }
}

/// The step behind the last task of an arm: the other arm, the measurement of
/// both, the next pair, or the report.
pub open spec fn step_after_arm(pair: usize, second: bool, task: ArmTask, pairs: usize) -> RunStep {
    let first_task = if is_generation(task) {
        ArmTask::LaunchGeneration
    } else {
        ArmTask::ReadRecordedProvenance
    };
    if !second {
        RunStep::Arm { pair, second: true, task: first_task }
    } else if is_generation(task) {
        RunStep::Arm { pair, second: false, task: ArmTask::ReadRecordedProvenance }
    } else if pair + 1 < pairs {
        RunStep::Arm {
            pair: (pair + 1) as usize,
            second: false,
            task: ArmTask::LaunchGeneration,
        }
    } else {
        RunStep::BuildReport
    }
}

/// The step that follows another.
pub open spec fn following_step(run: ParentRun, reply: RunReply) -> RunStep {
    if reply is Failed || is_over(run.step) {
        if is_over(run.step) {
            run.step
        } else {
            RunStep::Failed
        }
    } else {
        match run.step {
            RunStep::PinCorpus => RunStep::CreateLayout,
            RunStep::CreateLayout => RunStep::Arm {
                pair: 0,
                second: false,
                task: ArmTask::LaunchGeneration,
            },
            RunStep::Arm { pair, second, task } => match task_after(task) {
                Some(next) => RunStep::Arm { pair, second, task: next },
                None => step_after_arm(pair, second, task, run.pairs),
            },
            RunStep::BuildReport => RunStep::WriteResult,
            RunStep::WriteResult => RunStep::PrintResult,
            RunStep::PrintResult => if run.passed {
                RunStep::Passed
            } else {
                RunStep::GatesRejected
            },
            _ => run.step,
        }
    }
}

impl ParentRun {
    /// There is a pair to run, and the run is at one of its pairs.
    pub open spec fn wf(&self) -> bool {
        0 < self.pairs <= MAX_PAIRS && (self.step matches RunStep::Arm { pair, .. } ==> pair
            < self.pairs)
    }

    pub fn begin(pairs: usize) -> (run: Self)
        requires
            0 < pairs <= MAX_PAIRS,
        ensures
            run.wf(),
            run == (ParentRun { pairs, passed: false, step: RunStep::PinCorpus }),
    {
        ParentRun { pairs, passed: false, step: RunStep::PinCorpus }
    }

    /// Goes on after a step. Nothing follows a failure, and the outcome of the
    /// gates is kept until the result has been written.
    pub fn after(&mut self, reply: RunReply)
        requires
            old(self).wf(),
        ensures
            final(self).wf(),
            final(self).pairs == old(self).pairs,
            final(self).step == following_step(*old(self), reply),
            final(self).passed == (match (old(self).step, reply) {
                (RunStep::BuildReport, RunReply::Built { passed }) => passed,
                _ => old(self).passed,
            }),
            reply !is Failed && !is_over(old(self).step) ==> place(
                final(self).step,
                final(self).pairs,
            ) == place(old(self).step, old(self).pairs) + 1,
    {
        if self.is_finished() {
            return;
        }
        match reply {
            RunReply::Failed => {
                self.step = RunStep::Failed;
                return;
            },
            RunReply::Built { passed } => {
                if self.step == RunStep::BuildReport {
                    self.passed = passed;
                }
            },
            RunReply::Done => {},
        }
        self.step = match self.step {
            RunStep::PinCorpus => RunStep::CreateLayout,
            RunStep::CreateLayout => RunStep::Arm {
                pair: 0,
                second: false,
                task: ArmTask::LaunchGeneration,
            },
            RunStep::Arm { pair, second, task } => match next_task(task) {
                Some(next) => RunStep::Arm { pair, second, task: next },
                None => {
                    let generation = task == ArmTask::RecordProvenance;
                    if !second {
                        RunStep::Arm {
                            pair,
                            second: true,
                            task: if generation {
                                ArmTask::LaunchGeneration
                            } else {
                                ArmTask::ReadRecordedProvenance
                            },
                        }
                    } else if generation {
                        RunStep::Arm { pair, second: false, task: ArmTask::ReadRecordedProvenance }
                    } else if pair + 1 < self.pairs {
                        RunStep::Arm {
                            pair: pair + 1,
                            second: false,
                            task: ArmTask::LaunchGeneration,
                        }
                    } else {
                        RunStep::BuildReport
                    }
                },
            },
            RunStep::BuildReport => RunStep::WriteResult,
            RunStep::WriteResult => RunStep::PrintResult,
            RunStep::PrintResult => {
                if self.passed {
                    RunStep::Passed
                } else {
                    RunStep::GatesRejected
                }
            },
            RunStep::Passed => RunStep::Passed,
            RunStep::GatesRejected => RunStep::GatesRejected,
            RunStep::Failed => RunStep::Failed,
        };
    }

    fn is_finished(&self) -> (over: bool)
        ensures
            over == is_over(self.step),
    {
        match self.step {
            RunStep::Passed => true,
            RunStep::GatesRejected => true,
            RunStep::Failed => true,
            _ => false,
        }
    }

    /// The arm that a step is about.
    pub fn precision(&self) -> (precision: Option<Precision>)
        ensures
            precision == (match self.step {
                RunStep::Arm { pair, second, .. } => Some(
                    arm_at(
                        pair as nat,
                        if second {
                            1
                        } else {
                            0
                        },
                    ),
                ),
                _ => None,
            }),
    {
        match self.step {
            RunStep::Arm { pair, second, .. } => Some(
                if (pair % 2 == 0) == !second {
                    Precision::Fp32
                } else {
                    Precision::Fp16
                },
            ),
            _ => None,
        }
    }
}

/// The phase that a worker is launched for.
pub fn launched_phase(task: ArmTask) -> (phase: Option<WorkerPhase>)
    ensures
        phase == (match task {
            ArmTask::LaunchGeneration => Some(WorkerPhase::CacheGeneration),
            ArmTask::LaunchMeasurement => Some(WorkerPhase::LoadedCacheMeasurement),
            _ => None,
        }),
{
    match task {
        ArmTask::LaunchGeneration => Some(WorkerPhase::CacheGeneration),
        ArmTask::LaunchMeasurement => Some(WorkerPhase::LoadedCacheMeasurement),
        _ => None,
    }
}

/// Every step has a place of its own, so a run that goes on place by place does
/// everything once: each pair generates both caches before it measures either,
/// and the report comes when all pairs have been measured.
pub proof fn places_are_in_order(
    pairs: usize,
    pair: usize,
    second: bool,
    task: ArmTask,
    other_pair: usize,
    other_second: bool,
    other_task: ArmTask,
)
    requires
        pair < pairs,
        other_pair < pairs,
    ensures
        ({
            let step = RunStep::Arm { pair, second, task };
            let other = RunStep::Arm { pair: other_pair, second: other_second, task: other_task };
            &&& place(step, pairs) == place(other, pairs) <==> step == other
            &&& pair == other_pair && is_generation(task) && !is_generation(other_task) ==> place(
                step,
                pairs,
            ) < place(other, pairs)
            &&& pair < other_pair ==> place(step, pairs) < place(other, pairs)
            &&& place(RunStep::CreateLayout, pairs) < place(step, pairs) < place(
                RunStep::BuildReport,
                pairs,
            )
        }),
{
}

/// A run that passes has built a report whose gates were passed, and a result is
/// written before it is known whether they were.
pub proof fn passing_needs_a_written_report(run: ParentRun, reply: RunReply)
    requires
        run.wf(),
        !is_over(run.step),
    ensures
        following_step(run, reply) == RunStep::Passed ==> run.step == RunStep::PrintResult
            && run.passed,
        following_step(run, reply) == RunStep::GatesRejected ==> run.step == RunStep::PrintResult
            && !run.passed,
        reply is Failed ==> following_step(run, reply) == RunStep::Failed,
{
}


/// Each pair goes through both arms of generation and then through both arms of
/// measurement, and each arm through all of its tasks in order; then the next pair
/// follows, and behind the last the report.
pub proof fn arms_go_through_all_tasks(run: ParentRun, pair: usize, second: bool, task: ArmTask)
    requires
        run.wf(),
        run.step == (RunStep::Arm { pair, second, task }),
    ensures
        task != ArmTask::RecordProvenance && task != ArmTask::CompareProvenance ==> (following_step(
            run,
            RunReply::Done,
        ) matches RunStep::Arm { pair: next_pair, second: next_second, task: next } && next_pair
            == pair && next_second == second && task_number(next) == task_number(task) + 1),
        task == ArmTask::RecordProvenance && !second ==> following_step(run, RunReply::Done) == (
        RunStep::Arm { pair, second: true, task: ArmTask::LaunchGeneration }),
        task == ArmTask::RecordProvenance && second ==> following_step(run, RunReply::Done) == (
        RunStep::Arm { pair, second: false, task: ArmTask::ReadRecordedProvenance }),
        task == ArmTask::CompareProvenance && !second ==> following_step(run, RunReply::Done) == (
        RunStep::Arm { pair, second: true, task: ArmTask::ReadRecordedProvenance }),
        task == ArmTask::CompareProvenance && second && pair + 1 < run.pairs ==> following_step(
            run,
            RunReply::Done,
        ) == (RunStep::Arm {
            pair: (pair + 1) as usize,
            second: false,
            task: ArmTask::LaunchGeneration,
        }),
        task == ArmTask::CompareProvenance && second && pair + 1 == run.pairs ==> following_step(
            run,
            RunReply::Done,
        ) == RunStep::BuildReport,
{
}

/// Around the pairs a run pins its corpus and lays out its directories, and then builds,
/// writes and prints its report, and ends as the gates decide.
pub proof fn runs_end_as_the_gates_decide(run: ParentRun)
    requires
        run.wf(),
    ensures
        run.step == RunStep::PinCorpus ==> following_step(run, RunReply::Done)
            == RunStep::CreateLayout,
        run.step == RunStep::CreateLayout ==> following_step(run, RunReply::Done) == (RunStep::Arm {
            pair: 0,
            second: false,
            task: ArmTask::LaunchGeneration,
        }),
        run.step == RunStep::BuildReport ==> following_step(run, RunReply::Built { passed: true })
            == RunStep::WriteResult && following_step(run, RunReply::Built { passed: false })
            == RunStep::WriteResult,
        run.step == RunStep::WriteResult ==> following_step(run, RunReply::Done)
            == RunStep::PrintResult,
        run.step == RunStep::PrintResult && run.passed ==> following_step(run, RunReply::Done)
            == RunStep::Passed,
        run.step == RunStep::PrintResult && !run.passed ==> following_step(run, RunReply::Done)
            == RunStep::GatesRejected,
{
}

} // verus!
