//! The readiness verifier: the order of its phases, how each phase fails, and
//! the single atomic write of its result.
use crate::diagnostics::StrongReadinessFailure;
use crate::options::{RunMode, RunOptions};
use vstd::prelude::*;

verus! {

pub const MAX_VERIFIER_OUTPUT_BYTES: usize = 4096;

/// The phases of the verifier, in the order in which they run.
#[derive(Clone, Copy, Debug, PartialEq, Eq, Structural)]
pub enum ReadinessStage {
    InvocationIdentity,
    OpenBinary,
    OpenConfig,
    LoadKey,
    Verify,
    FinalIdentity,
    Compose,
    Serialize,
    Output,
}

#[derive(Clone, Copy, Debug, PartialEq, Eq)]
pub enum ReadinessStep {
    Perform(ReadinessStage),
    Finished(Result<(), StrongReadinessFailure>),
}

impl ReadinessStage {
    /// The place of the phase in the order.
    pub open spec fn rank(self) -> int {
        match self {
            ReadinessStage::InvocationIdentity => 0,
            ReadinessStage::OpenBinary => 1,
            ReadinessStage::OpenConfig => 2,
            ReadinessStage::LoadKey => 3,
            ReadinessStage::Verify => 4,
            ReadinessStage::FinalIdentity => 5,
            ReadinessStage::Compose => 6,
            ReadinessStage::Serialize => 7,
            ReadinessStage::Output => 8,
        }
    }

    /// The failure that a phase which does not succeed is reported as.
    pub open spec fn failure_kind(self) -> StrongReadinessFailure {
        match self {
            ReadinessStage::InvocationIdentity => StrongReadinessFailure::Identity,
            ReadinessStage::OpenBinary => StrongReadinessFailure::Identity,
            ReadinessStage::OpenConfig => StrongReadinessFailure::Config,
            ReadinessStage::LoadKey => StrongReadinessFailure::Credential,
            ReadinessStage::Verify => StrongReadinessFailure::Verification,
            ReadinessStage::FinalIdentity => StrongReadinessFailure::Verification,
            ReadinessStage::Compose => StrongReadinessFailure::Verification,
            ReadinessStage::Serialize => StrongReadinessFailure::Output,
            ReadinessStage::Output => StrongReadinessFailure::Output,
        }
    }

    pub fn failure(self) -> (failure: StrongReadinessFailure)
        ensures
            failure == self.failure_kind(),
    {
        match self {
            ReadinessStage::InvocationIdentity => StrongReadinessFailure::Identity,
            ReadinessStage::OpenBinary => StrongReadinessFailure::Identity,
            ReadinessStage::OpenConfig => StrongReadinessFailure::Config,
            ReadinessStage::LoadKey => StrongReadinessFailure::Credential,
            ReadinessStage::Verify => StrongReadinessFailure::Verification,
            ReadinessStage::FinalIdentity => StrongReadinessFailure::Verification,
            ReadinessStage::Compose => StrongReadinessFailure::Verification,
            ReadinessStage::Serialize => StrongReadinessFailure::Output,
            ReadinessStage::Output => StrongReadinessFailure::Output,
        }
    }

    fn next(self) -> (next: Option<ReadinessStage>)
        ensures
            self == ReadinessStage::Output ==> next is None,
            self != ReadinessStage::Output ==> next is Some && next->0.rank() == self.rank() + 1,
    {
        match self {
            ReadinessStage::InvocationIdentity => Some(ReadinessStage::OpenBinary),
            ReadinessStage::OpenBinary => Some(ReadinessStage::OpenConfig),
            ReadinessStage::OpenConfig => Some(ReadinessStage::LoadKey),
            ReadinessStage::LoadKey => Some(ReadinessStage::Verify),
            ReadinessStage::Verify => Some(ReadinessStage::FinalIdentity),
            ReadinessStage::FinalIdentity => Some(ReadinessStage::Compose),
            ReadinessStage::Compose => Some(ReadinessStage::Serialize),
            ReadinessStage::Serialize => Some(ReadinessStage::Output),
            ReadinessStage::Output => None,
        }
    }
}

/// Where the verifier starts: it needs a candidate, the readiness mode and the
/// request to verify records, and a deadline that has not passed.
pub fn begin_strong_readiness(options: &RunOptions, cancelled: bool) -> (step: ReadinessStep)
    ensures
        step == (if !(options.config_path is Some && options.mode == RunMode::StorageReadinessOnly
            && options.verify_records) {
            ReadinessStep::Finished(Err(StrongReadinessFailure::Config))
        } else if cancelled {
            ReadinessStep::Finished(Err(StrongReadinessFailure::Deadline))
        } else {
            ReadinessStep::Perform(ReadinessStage::InvocationIdentity)
        }),
{
    if options.config_path.is_none() || options.mode != RunMode::StorageReadinessOnly
        || !options.verify_records {
        ReadinessStep::Finished(Err(StrongReadinessFailure::Config))
    } else if cancelled {
        ReadinessStep::Finished(Err(StrongReadinessFailure::Deadline))
    } else {
        ReadinessStep::Perform(ReadinessStage::InvocationIdentity)
    }
}

/// How one phase ends: an expired deadline outweighs the phase's own result.
pub fn readiness_phase<T, E>(
    result: Result<T, E>,
    cancelled: bool,
    failure: StrongReadinessFailure,
) -> (outcome: Result<T, StrongReadinessFailure>)
    ensures
        outcome == (if cancelled {
            Err(StrongReadinessFailure::Deadline)
        } else {
            match result {
                Ok(value) => Ok(value),
                Err(_) => Err(failure),
            }
        }),
{
    if cancelled {
        return Err(StrongReadinessFailure::Deadline);
    }
    match result {
        Ok(value) => Ok(value),
        Err(_) => Err(failure),
    }
}

/// What follows a phase: the next one where it succeeded in time, else the
/// failure. A result that has been written counts even past the deadline.
pub open spec fn follows(
    stage: ReadinessStage,
    succeeded: bool,
    cancelled: bool,
    step: ReadinessStep,
) -> bool {
    if stage == ReadinessStage::Output && succeeded {
        step == ReadinessStep::Finished(Ok(()))
    } else if cancelled {
        step == ReadinessStep::Finished(Err(StrongReadinessFailure::Deadline))
    } else if !succeeded {
        step == ReadinessStep::Finished(Err(stage.failure_kind()))
    } else {
        step matches ReadinessStep::Perform(next) && next.rank() == stage.rank() + 1
    }
}

/// The step after a phase has ended.
pub fn after_readiness_stage(stage: ReadinessStage, succeeded: bool, cancelled: bool) -> (step:
    ReadinessStep)
    ensures
        follows(stage, succeeded, cancelled, step),
{
    if stage == ReadinessStage::Output && succeeded {
        return ReadinessStep::Finished(Ok(()));
    }
    let result: Result<(), ()> = if succeeded {
        Ok(())
    } else {
        Err(())
    };
    match readiness_phase(result, cancelled, stage.failure()) {
        Err(failure) => ReadinessStep::Finished(Err(failure)),
        Ok(()) => match stage.next() {
            Some(next) => ReadinessStep::Perform(next),
            None => ReadinessStep::Finished(Ok(())),
        },
    }
}

/// The exit status of a contained verifier; `None` is a verifier that panicked.
pub fn contained_exit_status(outcome: Option<Result<(), StrongReadinessFailure>>) -> (status: i32)
    ensures
        status == 0 <==> outcome matches Some(Ok(_)),
        status == 0 || status == 1,
{
    match outcome {
        Some(Ok(())) => 0,
        _ => 1,
    }
}

/// `stages` is a run of the verifier in which every phase was followed by the next.
pub open spec fn verifier_run(stages: Seq<ReadinessStage>) -> bool {
    &&& stages.len() > 0
    &&& stages[0] == ReadinessStage::InvocationIdentity
    &&& forall|i: int|
        0 < i < stages.len() ==> follows(
            stages[i - 1],
            true,
            false,
            ReadinessStep::Perform(#[trigger] stages[i]),
        )
}

/// A phase is reached only after all phases before it have succeeded in time,
/// each once: the result is written after everything has been verified.
pub proof fn phases_run_in_order(stages: Seq<ReadinessStage>)
    requires
        verifier_run(stages),
    ensures
        forall|i: int| 0 <= i < stages.len() ==> (#[trigger] stages[i]).rank() == i,
        stages.len() <= 9,
    decreases stages.len(),
{
    if stages.len() > 1 {
        let last = stages.len() - 1;
        let before = stages.drop_last();
        assert(verifier_run(before)) by {
            assert forall|i: int| 0 < i < before.len() implies follows(
                before[i - 1],
                true,
                false,
                ReadinessStep::Perform(#[trigger] before[i]),
            ) by {
                assert(before[i] == stages[i]);
                assert(before[i - 1] == stages[i - 1]);
            }
        }
        phases_run_in_order(before);
        assert(before[last - 1].rank() == last - 1);
        assert(before[last - 1] == stages[last - 1]);
        assert(stages[last].rank() == stages[last - 1].rank() + 1);
        assert forall|i: int| 0 <= i < stages.len() implies (#[trigger] stages[i]).rank() == i by {
            if i < last {
                assert(before[i] == stages[i]);
                assert(before[i].rank() == i);
            }
        }
    }
}

/// Success is reported only for a completed output, and a deadline that has
/// passed is the failure of every other phase.
pub proof fn success_needs_completed_output(
    stage: ReadinessStage,
    succeeded: bool,
    cancelled: bool,
    step: ReadinessStep,
)
    requires
        follows(stage, succeeded, cancelled, step),
    ensures
        step == ReadinessStep::Finished(Ok::<(), StrongReadinessFailure>(())) ==> stage
            == ReadinessStage::Output && succeeded,
        cancelled && !(stage == ReadinessStage::Output && succeeded) ==> step
            == ReadinessStep::Finished(
            Err::<(), StrongReadinessFailure>(StrongReadinessFailure::Deadline),
        ),
{
}

/// Ends the serialized result with a newline and holds it to the output bound.
pub fn serialize_strong_readiness_result(verifier: Vec<u8>) -> (output: Option<Vec<u8>>)
    requires
        verifier.len() < usize::MAX,
    ensures
        output is Some <==> verifier@.len() + 1 <= MAX_VERIFIER_OUTPUT_BYTES,
        output matches Some(bytes) ==> bytes@ == verifier@.push(10u8),
{
    let mut output = verifier;
    output.push(10);
    if output.len() > MAX_VERIFIER_OUTPUT_BYTES {
        return None;
    }
    Some(output)
}

/// The operations on the output descriptor, in order.
#[derive(Clone, Copy, Debug, PartialEq, Eq, Structural)]
pub enum OutputStage {
    CheckDescriptor,
    QueryBound,
    ReadFlags,
    SetFlags { flags: i32 },
    Write,
}

/// What an operation on the output descriptor returned.
#[derive(Clone, Copy, Debug, PartialEq, Eq, Structural)]
pub enum OutputReply {
    Failed,
    IsPipe(bool),
    Bound(usize),
    Flags(i32),
    Done,
    Written(usize),
}

#[derive(Clone, Copy, Debug, PartialEq, Eq, Structural)]
pub enum OutputFailure {
    OutsideBound,
    DeadlineExpired,
    DescriptorRejected,
    ExceedsDescriptorBound,
    DescriptorError,
    Incomplete,
}

impl OutputFailure {
    pub open spec fn text(self) -> Seq<char> {
        match self {
            OutputFailure::OutsideBound => "verifier output is outside the atomic bound"@,
            OutputFailure::DeadlineExpired => "verifier deadline expired before output"@,
            OutputFailure::DescriptorRejected => "verifier output descriptor rejected"@,
            OutputFailure::ExceedsDescriptorBound =>
                "verifier output exceeds descriptor atomicity bound"@,
            OutputFailure::DescriptorError => "verifier output descriptor failed"@,
            OutputFailure::Incomplete => "atomic verifier write was not complete"@,
        }
    }

    pub fn message(self) -> (message: &'static str)
        ensures
            message@ == self.text(),
    {
        match self {
            OutputFailure::OutsideBound => "verifier output is outside the atomic bound",
            OutputFailure::DeadlineExpired => "verifier deadline expired before output",
            OutputFailure::DescriptorRejected => "verifier output descriptor rejected",
            OutputFailure::ExceedsDescriptorBound =>
                "verifier output exceeds descriptor atomicity bound",
            OutputFailure::DescriptorError => "verifier output descriptor failed",
            OutputFailure::Incomplete => "atomic verifier write was not complete",
        }
    }
}

/// One attempt to write `length` bytes atomically, at its next operation.
/// `bound` is what the descriptor writes atomically, once it is known.
#[derive(Clone, Copy, Debug, PartialEq, Eq, Structural)]
pub struct AtomicOutput {
    pub length: usize,
    pub nonblocking: i32,
    pub bound: Option<usize>,
    pub stage: OutputStage,
}

#[derive(Clone, Copy, Debug, PartialEq, Eq)]
pub enum OutputStep {
    Perform(AtomicOutput),
    Finished(Result<(), OutputFailure>),
}

impl AtomicOutput {
    /// The length is within the verifier's bound, and from the point where the
    /// descriptor's own bound is known, within that.
    pub open spec fn wf(self) -> bool {
        &&& 0 < self.length <= MAX_VERIFIER_OUTPUT_BYTES
        &&& match self.stage {
            OutputStage::CheckDescriptor | OutputStage::QueryBound => true,
            _ => self.bound is Some && self.length <= self.bound->0,
        }
    }

    /// Starts an attempt; `nonblocking` is the descriptor flag to set.
    pub fn begin(length: usize, nonblocking: i32, cancelled: bool) -> (step: OutputStep)
        ensures
            step == (if length == 0 || length > MAX_VERIFIER_OUTPUT_BYTES {
                OutputStep::Finished(Err(OutputFailure::OutsideBound))
            } else if cancelled {
                OutputStep::Finished(Err(OutputFailure::DeadlineExpired))
            } else {
                OutputStep::Perform(
                    AtomicOutput {
                        length,
                        nonblocking,
                        bound: None,
                        stage: OutputStage::CheckDescriptor,
                    },
                )
            }),
            step matches OutputStep::Perform(output) ==> output.wf(),
    {
        if length == 0 || length > MAX_VERIFIER_OUTPUT_BYTES {
            return OutputStep::Finished(Err(OutputFailure::OutsideBound));
        }
        if cancelled {
            return OutputStep::Finished(Err(OutputFailure::DeadlineExpired));
        }
        OutputStep::Perform(
            AtomicOutput { length, nonblocking, bound: None, stage: OutputStage::CheckDescriptor },
        )
    }

    /// What follows `reply` to the operation of this stage.
    pub open spec fn following(self, reply: OutputReply, cancelled: bool) -> OutputStep {
        match (self.stage, reply) {
            (OutputStage::CheckDescriptor, OutputReply::IsPipe(is_pipe)) => if !is_pipe {
                OutputStep::Finished(Err(OutputFailure::DescriptorRejected))
            } else if cancelled {
                OutputStep::Finished(Err(OutputFailure::DeadlineExpired))
            } else {
                OutputStep::Perform(AtomicOutput { stage: OutputStage::QueryBound, ..self })
            },
            (OutputStage::QueryBound, OutputReply::Bound(bound)) => if cancelled {
                OutputStep::Finished(Err(OutputFailure::DeadlineExpired))
            } else if self.length > bound {
                OutputStep::Finished(Err(OutputFailure::ExceedsDescriptorBound))
            } else {
                OutputStep::Perform(
                    AtomicOutput { bound: Some(bound), stage: OutputStage::ReadFlags, ..self },
                )
            },
            (OutputStage::ReadFlags, OutputReply::Flags(flags)) => if cancelled {
                OutputStep::Finished(Err(OutputFailure::DeadlineExpired))
            } else {
                OutputStep::Perform(
                    AtomicOutput {
                        stage: OutputStage::SetFlags { flags: flags | self.nonblocking },
                        ..self
                    },
                )
            },
            (OutputStage::SetFlags { .. }, OutputReply::Done) => if cancelled {
                OutputStep::Finished(Err(OutputFailure::DeadlineExpired))
            } else {
                OutputStep::Perform(AtomicOutput { stage: OutputStage::Write, ..self })
            },
            (OutputStage::Write, OutputReply::Written(count)) => if count == self.length {
                OutputStep::Finished(Ok(()))
            } else {
                OutputStep::Finished(Err(OutputFailure::Incomplete))
            },
            _ => OutputStep::Finished(Err(OutputFailure::DescriptorError)),
        }
    }

    /// Continues with what the operation of this stage returned.
    pub fn after(self, reply: OutputReply, cancelled: bool) -> (step: OutputStep)
        requires
            self.wf(),
        ensures
            step == self.following(reply, cancelled),
            step matches OutputStep::Perform(output) ==> output.wf(),
    {
        match (self.stage, reply) {
            (OutputStage::CheckDescriptor, OutputReply::IsPipe(is_pipe)) => {
                if !is_pipe {
                    return OutputStep::Finished(Err(OutputFailure::DescriptorRejected));
                }
                if cancelled {
                    return OutputStep::Finished(Err(OutputFailure::DeadlineExpired));
                }
                OutputStep::Perform(AtomicOutput { stage: OutputStage::QueryBound, ..self })
            },
            (OutputStage::QueryBound, OutputReply::Bound(bound)) => {
                if cancelled {
                    return OutputStep::Finished(Err(OutputFailure::DeadlineExpired));
                }
                if self.length > bound {
                    return OutputStep::Finished(Err(OutputFailure::ExceedsDescriptorBound));
                }
                OutputStep::Perform(
                    AtomicOutput { bound: Some(bound), stage: OutputStage::ReadFlags, ..self },
                )
            },
            (OutputStage::ReadFlags, OutputReply::Flags(flags)) => {
                if cancelled {
                    return OutputStep::Finished(Err(OutputFailure::DeadlineExpired));
                }
                OutputStep::Perform(
                    AtomicOutput {
                        stage: OutputStage::SetFlags { flags: flags | self.nonblocking },
                        ..self
                    },
                )
            },
            (OutputStage::SetFlags { .. }, OutputReply::Done) => {
                if cancelled {
                    return OutputStep::Finished(Err(OutputFailure::DeadlineExpired));
                }
                OutputStep::Perform(AtomicOutput { stage: OutputStage::Write, ..self })
            },
            (OutputStage::Write, OutputReply::Written(count)) => {
                if count == self.length {
                    OutputStep::Finished(Ok(()))
                } else {
                    OutputStep::Finished(Err(OutputFailure::Incomplete))
                }
            },
            _ => OutputStep::Finished(Err(OutputFailure::DescriptorError)),
        }
    }

    /// The place of a stage in the order.
    pub open spec fn rank(self) -> int {
        match self.stage {
            OutputStage::CheckDescriptor => 0,
            OutputStage::QueryBound => 1,
            OutputStage::ReadFlags => 2,
            OutputStage::SetFlags { .. } => 3,
            OutputStage::Write => 4,
        }
    }
}

/// The write is the last operation, there is one of it, and it is made only
/// for what the descriptor takes in one piece.
pub proof fn output_is_one_atomic_write(output: AtomicOutput, reply: OutputReply, cancelled: bool)
    requires
        output.wf(),
    ensures
        output.stage == OutputStage::Write ==> output.following(reply, cancelled) is Finished
            && output.length <= output.bound->0,
        output.following(reply, cancelled) matches OutputStep::Perform(next) ==> next.rank()
            == output.rank() + 1 && next.length == output.length,
        output.following(reply, cancelled) == OutputStep::Finished(Ok::<(), OutputFailure>(()))
            ==> output.stage == OutputStage::Write && reply == OutputReply::Written(output.length),
{
}


/// A verification goes from one stage to the next in a fixed order; where it is called
/// off it ends with the deadline, and where a stage fails, with the failure of that
/// stage. Once the output is written, it is done.
pub proof fn readiness_goes_stage_by_stage(
    stage: ReadinessStage,
    succeeded: bool,
    cancelled: bool,
    step: ReadinessStep,
)
    requires
        follows(stage, succeeded, cancelled, step),
    ensures
        succeeded && !cancelled ==> step == (match stage {
            ReadinessStage::InvocationIdentity => ReadinessStep::Perform(
                ReadinessStage::OpenBinary,
            ),
            ReadinessStage::OpenBinary => ReadinessStep::Perform(ReadinessStage::OpenConfig),
            ReadinessStage::OpenConfig => ReadinessStep::Perform(ReadinessStage::LoadKey),
            ReadinessStage::LoadKey => ReadinessStep::Perform(ReadinessStage::Verify),
            ReadinessStage::Verify => ReadinessStep::Perform(ReadinessStage::FinalIdentity),
            ReadinessStage::FinalIdentity => ReadinessStep::Perform(ReadinessStage::Compose),
            ReadinessStage::Compose => ReadinessStep::Perform(ReadinessStage::Serialize),
            ReadinessStage::Serialize => ReadinessStep::Perform(ReadinessStage::Output),
            ReadinessStage::Output => ReadinessStep::Finished(Ok(())),
        }),
        cancelled && !(succeeded && stage == ReadinessStage::Output) ==> step
            == ReadinessStep::Finished(
            Err::<(), StrongReadinessFailure>(StrongReadinessFailure::Deadline),
        ),
        !succeeded && !cancelled ==> step == ReadinessStep::Finished(
            Err::<(), StrongReadinessFailure>(
                match stage {
                    ReadinessStage::InvocationIdentity
                    | ReadinessStage::OpenBinary => StrongReadinessFailure::Identity,
                    ReadinessStage::OpenConfig => StrongReadinessFailure::Config,
                    ReadinessStage::LoadKey => StrongReadinessFailure::Credential,
                    ReadinessStage::Verify
                    | ReadinessStage::FinalIdentity
                    | ReadinessStage::Compose => StrongReadinessFailure::Verification,
                    ReadinessStage::Serialize
                    | ReadinessStage::Output => StrongReadinessFailure::Output,
                },
            ),
        ),
{
}

/// Output goes to a pipe that takes it whole, which is told not to block while all of
/// its other flags stay; it is complete exactly where all of it was written at once.
pub proof fn outputs_fit_into_their_pipe(output: AtomicOutput, bound: usize, flags: i32, count: usize)
    requires
        output.wf(),
    ensures
        output.stage == OutputStage::CheckDescriptor ==> output.following(
            OutputReply::IsPipe(true),
            false,
        ) is Perform && output.following(OutputReply::IsPipe(false), false)
            == OutputStep::Finished(Err::<(), OutputFailure>(OutputFailure::DescriptorRejected)),
        output.stage == OutputStage::QueryBound ==> (output.following(
            OutputReply::Bound(bound),
            false,
        ) is Perform <==> output.length <= bound),
        output.stage == OutputStage::QueryBound && output.length > bound ==> output.following(
            OutputReply::Bound(bound),
            false,
        ) == OutputStep::Finished(
            Err::<(), OutputFailure>(OutputFailure::ExceedsDescriptorBound),
        ),
        output.stage == OutputStage::ReadFlags ==> (output.following(
            OutputReply::Flags(flags),
            false,
        ) matches OutputStep::Perform(next) && (next.stage matches OutputStage::SetFlags {
            flags: told,
        } && told & flags == flags && told & output.nonblocking == output.nonblocking && told & !(
        flags | output.nonblocking) == 0)),
        output.stage is SetFlags ==> (output.following(
            OutputReply::Done,
            false,
        ) matches OutputStep::Perform(next) && next.stage == OutputStage::Write && next.length
            == output.length),
        output.stage == OutputStage::Write ==> output.following(OutputReply::Written(count), false)
            == OutputStep::Finished(
            if count == output.length {
                Ok::<(), OutputFailure>(())
            } else {
                Err(OutputFailure::Incomplete)
            },
        ),
        output.following(OutputReply::Failed, false) == OutputStep::Finished(
            Err::<(), OutputFailure>(OutputFailure::DescriptorError),
        ),
        output.stage != OutputStage::Write && output.stage != OutputStage::CheckDescriptor
            ==> output.following(
            match output.stage {
                OutputStage::QueryBound => OutputReply::Bound(bound),
                OutputStage::ReadFlags => OutputReply::Flags(flags),
                _ => OutputReply::Done,
            },
            true,
        ) == OutputStep::Finished(Err::<(), OutputFailure>(OutputFailure::DeadlineExpired)),
{
    let nonblocking = output.nonblocking;
    let told = flags | nonblocking;
    assert((flags | nonblocking) & flags == flags && (flags | nonblocking) & nonblocking
        == nonblocking && (flags | nonblocking) & !(flags | nonblocking) == 0) by (bit_vector);
}

} // verus!
