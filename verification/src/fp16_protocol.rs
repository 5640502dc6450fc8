//! How the parent of the precision experiment talks to its workers and gets rid
//! of them.
use crate::digest::{hex_bytes, hex_chars, hex_decode, hex_encode, hex_round_trips, is_hex};
use crate::fp16_args::{digits_of, digits_value, number, parse_number};
use crate::text::bytes_eq;
use vstd::prelude::*;
use vstd::string::*;
use vstd::utf8::*;

verus! {

pub const PROTOCOL_VERSION: u32 = 2;

pub const PROTOCOL_FD: u64 = 3;

pub const CAPABILITY_BYTES: usize = 32;

pub const MAX_PROTOCOL_BYTES: usize = 335544320;

#[derive(Clone, Copy, Debug, PartialEq, Eq, Structural)]
pub enum ProtocolError {
    PayloadOverflow,
    DeadlineExceeded,
    WriteClosed,
    UnexpectedEof,
    TrailingData,
    Failed,
    PollFailed,
    InvocationRejected,
    CapabilityDecode,
    CapabilityLength,
    CapabilityRejected,
    WorkerFailed,
    OutputCapabilityMismatch,
    ProcessGroupSurvived,
}

/// A length as four bytes, the highest first.
pub open spec fn header_of(length: nat) -> Seq<u8> {
    seq![
        (length / 0x100_0000 % 256) as u8,
        (length / 0x1_0000 % 256) as u8,
        (length / 0x100 % 256) as u8,
        (length % 256) as u8,
    ]
}

/// The length that four bytes stand for, the highest first.
pub open spec fn length_of(header: Seq<u8>) -> nat {
    header[0] as nat * 0x100_0000 + header[1] as nat * 0x1_0000 + header[2] as nat * 0x100
        + header[3] as nat
}

/// A message as it is sent: its length and then its bytes. A message may be no
/// longer than `cap`, and its length must fit the header.
pub fn encode_frame(payload: &[u8], cap: usize) -> (frame: Result<Vec<u8>, ProtocolError>)
    ensures
        match frame {
            Ok(bytes) => payload@.len() <= cap && payload@.len() <= u32::MAX && bytes@ == header_of(
                payload@.len(),
            ) + payload@,
            Err(error) => (payload@.len() > cap || payload@.len() > u32::MAX) && error
                == ProtocolError::PayloadOverflow,
        },
{
    let length: usize = payload.len();
    if length > cap || length as u64 > 0xffff_ffff {
        return Err(ProtocolError::PayloadOverflow);
    }
    let mut frame: Vec<u8> = Vec::new();
    frame.push((length / 0x100_0000 % 256) as u8);
    frame.push((length / 0x1_0000 % 256) as u8);
    frame.push((length / 0x100 % 256) as u8);
    frame.push((length % 256) as u8);
    assert(frame@ =~= header_of(length as nat));
    frame.extend_from_slice(payload);
    assert(frame@ =~= header_of(length as nat) + payload@);
    Ok(frame)
}

/// The length of the message that a header announces, which may be no longer
/// than `cap`.
pub fn frame_length(header: [u8; 4], cap: usize) -> (length: Result<usize, ProtocolError>)
    ensures
        length == (if length_of(header@) > cap {
            Err(ProtocolError::PayloadOverflow)
        } else {
            Ok(length_of(header@) as usize)
        }),
{
    let length: u64 = header[0] as u64 * 0x100_0000 + header[1] as u64 * 0x1_0000 + header[2] as u64
        * 0x100 + header[3] as u64;
    if length > cap as u64 {
        return Err(ProtocolError::PayloadOverflow);
    }
    Ok(length as usize)
}

/// The message in a complete frame.
pub fn decode_frame(frame: &[u8], cap: usize) -> (payload: Result<Vec<u8>, ProtocolError>)
    ensures
        match payload {
            Ok(bytes) => frame@.len() == 4 + length_of(frame@.take(4)) && length_of(frame@.take(4))
                <= cap && bytes@ == frame@.skip(4),
            Err(ProtocolError::UnexpectedEof) => frame@.len() < 4 || (length_of(frame@.take(4))
                <= cap && frame@.len() < 4 + length_of(frame@.take(4))),
            Err(ProtocolError::PayloadOverflow) => frame@.len() >= 4 && length_of(frame@.take(4))
                > cap,
            Err(ProtocolError::TrailingData) => frame@.len() >= 4 && length_of(frame@.take(4))
                <= cap && frame@.len() > 4 + length_of(frame@.take(4)),
            Err(_) => false,
        },
{
    if frame.len() < 4 {
        return Err(ProtocolError::UnexpectedEof);
    }
    let header: [u8; 4] = [frame[0], frame[1], frame[2], frame[3]];
    assert(header@ =~= frame@.take(4));
    let length: usize = match frame_length(header, cap) {
        Ok(length) => length,
        Err(error) => {
            return Err(error);
        },
    };
    let rest: usize = frame.len() - 4;
    if rest < length {
        return Err(ProtocolError::UnexpectedEof);
    }
    if rest > length {
        return Err(ProtocolError::TrailingData);
    }
    let mut payload: Vec<u8> = Vec::new();
    payload.extend_from_slice(vstd::slice::slice_subrange(frame, 4, frame.len()));
    assert(payload@ =~= frame@.skip(4));
    Ok(payload)
}

/// What was framed is read back: the header of a message that fits announces its
/// length, and what follows it is the message.
pub proof fn frames_round_trip(payload: Seq<u8>)
    requires
        payload.len() <= u32::MAX,
    ensures
        header_of(payload.len()).len() == 4,
        length_of(header_of(payload.len())) == payload.len(),
        (header_of(payload.len()) + payload).take(4) == header_of(payload.len()),
        (header_of(payload.len()) + payload).skip(4) == payload,
{
    let frame = header_of(payload.len()) + payload;
    assert(frame.take(4) =~= header_of(payload.len()));
    assert(frame.skip(4) =~= payload);
}

/// A capability as a worker is given it. Decoding gives it back.
pub fn encode_capability(capability: &[u8]) -> (text: String)
    ensures
        text@ == hex_chars(capability@),
        is_hex(text@),
        hex_bytes(text@) == capability@,
{
    proof {
        hex_round_trips(capability@);
    }
    hex_encode(capability)
}

/// The secret that ties a worker to its parent.
pub fn decode_capability(value: &str) -> (capability: Result<Vec<u8>, ProtocolError>)
    ensures
        match capability {
            Ok(bytes) => is_hex(value@) && bytes@ == hex_bytes(value@) && bytes@.len()
                == CAPABILITY_BYTES,
            Err(ProtocolError::CapabilityDecode) => !is_hex(value@),
            Err(ProtocolError::CapabilityLength) => is_hex(value@) && hex_bytes(value@).len()
                != CAPABILITY_BYTES,
            Err(_) => false,
        },
{
    match hex_decode(value) {
        None => Err(ProtocolError::CapabilityDecode),
        Some(bytes) => {
            if bytes.len() != CAPABILITY_BYTES {
                return Err(ProtocolError::CapabilityLength);
            }
            Ok(bytes)
        },
    }
}

/// Whether a worker was started as the parent starts one: with the number of the
/// descriptor that it is to talk over.
pub fn check_worker_invocation(words: &Vec<Vec<u8>>) -> (result: Result<(), ProtocolError>)
    ensures
        result == (if words@.len() == 2 && words@[0]@ == encode_utf8("--protocol-fd"@) && number(
            words@[1]@,
        ) == Some(PROTOCOL_FD as nat) {
            Ok(())
        } else {
            Err(ProtocolError::InvocationRejected)
        }),
{
    if words.len() != 2 || !bytes_eq(words[0].as_slice(), "--protocol-fd".as_bytes()) {
        return Err(ProtocolError::InvocationRejected);
    }
    match parse_number(words[1].as_slice()) {
        Some(descriptor) => {
            if descriptor != PROTOCOL_FD {
                return Err(ProtocolError::InvocationRejected);
            }
            Ok(())
        },
        None => Err(ProtocolError::InvocationRejected),
    }
}

/// Whether a request comes from the worker's own parent, in the version that the
/// worker speaks.
pub fn check_worker_request(version: u32, capability: &[u8], expected: &[u8]) -> (result: Result<
    (),
    ProtocolError,
>)
    ensures
        result == (if version == PROTOCOL_VERSION && capability@ == expected@ {
            Ok(())
        } else {
            Err(ProtocolError::CapabilityRejected)
        }),
{
    if version != PROTOCOL_VERSION || !bytes_eq(capability, expected) {
        return Err(ProtocolError::CapabilityRejected);
    }
    Ok(())
}

/// Whether a worker that has ended may be believed: it succeeded, and it knows
/// the secret.
pub fn check_worker_exit(success: bool, capability: &[u8], expected: &[u8]) -> (result: Result<
    (),
    ProtocolError,
>)
    ensures
        result == (if !success {
            Err(ProtocolError::WorkerFailed)
        } else if capability@ != expected@ {
            Err(ProtocolError::OutputCapabilityMismatch)
        } else {
            Ok(())
        }),
{
    if !success {
        return Err(ProtocolError::WorkerFailed);
    }
    if !bytes_eq(capability, expected) {
        return Err(ProtocolError::OutputCapabilityMismatch);
    }
    Ok(())
}

#[derive(Clone, Copy, Debug, PartialEq, Eq, Structural)]
pub enum Direction {
    Write,
    Read,
    /// Reading once more, where nothing may come.
    End,
}

/// A transfer of bytes against a deadline.
#[derive(Clone, Copy, Debug, PartialEq, Eq, Structural)]
pub struct Transfer {
    pub direction: Direction,
    pub total: usize,
    pub done: usize,
    /// The last attempt found the other side not ready.
    pub blocked: bool,
}

/// What has happened during a transfer.
#[derive(Clone, Copy, Debug, PartialEq, Eq, Structural)]
pub enum TransferEvent {
    /// The deadline has passed, or passed while waiting.
    Expired,
    /// There is still time, and the other side is ready again if it was not.
    InTime,
    /// So many bytes were moved.
    Moved(usize),
    WouldBlock,
    Failed,
    PollFailed,
}

/// What a transfer does next.
#[derive(Debug, PartialEq, Eq)]
pub enum TransferStep {
    /// Look at the clock.
    CheckDeadline,
    /// Wait until the other side is ready or the deadline has passed.
    Poll,
    /// Move the bytes from here on.
    Move { from: usize },
    Finished(Result<(), ProtocolError>),
}

impl Transfer {
    pub open spec fn wf(self) -> bool {
        self.done <= self.total
    }

    /// Whether there is anything left to do.
    pub open spec fn is_complete(self) -> bool {
        self.direction != Direction::End && self.done == self.total
    }

    /// The step before the next attempt.
    pub open spec fn next_step(self) -> TransferStep {
        if self.is_complete() {
            TransferStep::Finished(Ok(()))
        } else if self.blocked {
            TransferStep::Poll
        } else {
            TransferStep::CheckDeadline
        }
    }

    fn next(self) -> (step: TransferStep)
        ensures
            step == self.next_step(),
    {
        if self.direction != Direction::End && self.done == self.total {
            TransferStep::Finished(Ok(()))
        } else if self.blocked {
            TransferStep::Poll
        } else {
            TransferStep::CheckDeadline
        }
    }

    pub fn begin(direction: Direction, total: usize) -> (started: (Self, TransferStep))
        ensures
            started.0 == (Transfer { direction, total, done: 0, blocked: false }),
            started.0.wf(),
            started.1 == started.0.next_step(),
    {
        let transfer = Transfer { direction, total, done: 0, blocked: false };
        (transfer, transfer.next())
    }

    /// What moving nothing means.
    pub open spec fn nothing_moved(self) -> Result<(), ProtocolError> {
        match self.direction {
            Direction::Write => Err(ProtocolError::WriteClosed),
            Direction::Read => Err(ProtocolError::UnexpectedEof),
            Direction::End => Ok(()),
        }
    }

    /// Goes on after an event: the deadline ends everything, bytes are counted,
    /// and where none may come any is an error.
    pub fn after(&mut self, event: TransferEvent) -> (step: TransferStep)
        requires
            old(self).wf(),
            event matches TransferEvent::Moved(count) ==> old(self).direction == Direction::End
                || count <= old(self).total - old(self).done,
        ensures
            final(self).wf(),
            final(self).direction == old(self).direction,
            final(self).total == old(self).total,
            match event {
                TransferEvent::Expired => step == TransferStep::Finished(
                    Err(ProtocolError::DeadlineExceeded),
                ) && final(self).done == old(self).done,
                TransferEvent::InTime => final(self).done == old(self).done
                    && !final(self).blocked && step == (if old(self).blocked {
                    final(self).next_step()
                } else {
                    TransferStep::Move { from: old(self).done }
                }),
                TransferEvent::Moved(count) => if count == 0 {
                    step == TransferStep::Finished(old(self).nothing_moved()) && final(self).done
                        == old(self).done
                } else if old(self).direction == Direction::End {
                    step == TransferStep::Finished(Err(ProtocolError::TrailingData))
                } else {
                    final(self).done == old(self).done + count && !final(self).blocked && step
                        == final(self).next_step()
                },
                TransferEvent::WouldBlock => final(self).done == old(self).done
                    && final(self).blocked && step == final(self).next_step(),
                TransferEvent::Failed => step == TransferStep::Finished(
                    Err(ProtocolError::Failed),
                ),
                TransferEvent::PollFailed => step == TransferStep::Finished(
                    Err(ProtocolError::PollFailed),
                ),
            },
    {
        match event {
            TransferEvent::Expired => TransferStep::Finished(Err(ProtocolError::DeadlineExceeded)),
            TransferEvent::InTime => {
                if self.blocked {
                    self.blocked = false;
                    return self.next();
                }
                TransferStep::Move { from: self.done }
            },
            TransferEvent::Moved(count) => {
                if count == 0 {
                    return TransferStep::Finished(
                        match self.direction {
                            Direction::Write => Err(ProtocolError::WriteClosed),
                            Direction::Read => Err(ProtocolError::UnexpectedEof),
                            Direction::End => Ok(()),
                        },
                    );
                }
                if self.direction == Direction::End {
                    return TransferStep::Finished(Err(ProtocolError::TrailingData));
                }
                self.done = self.done + count;
                self.blocked = false;
                self.next()
            },
            TransferEvent::WouldBlock => {
                self.blocked = true;
                self.next()
            },
            TransferEvent::Failed => TransferStep::Finished(Err(ProtocolError::Failed)),
            TransferEvent::PollFailed => TransferStep::Finished(Err(ProtocolError::PollFailed)),
        }
    }
}

/// A transfer that moves bytes succeeds only once it has moved all of them.
pub proof fn transfers_complete_exactly(transfer: Transfer)
    requires
        transfer.wf(),
        transfer.direction != Direction::End,
    ensures
        transfer.next_step() == TransferStep::Finished(Ok(())) <==> transfer.done
            == transfer.total,
        transfer.nothing_moved() is Err,
{
}

/// A signal to a worker's whole process group.
#[derive(Clone, Copy, Debug, PartialEq, Eq, Structural)]
pub enum GroupSignal {
    Terminate,
    Kill,
}

/// Where the end of a successful worker stands.
#[derive(Clone, Copy, Debug, PartialEq, Eq, Structural)]
pub enum FinalStage {
    /// The deadline is looked at, and the group is.
    Begin,
    /// The group was asked to end and is given a moment.
    Grace,
    /// The group was killed and has until the deadline.
    Killed,
    /// The group is looked at for the last time.
    Last,
}

/// What happens next at the end of a successful worker.
#[derive(Debug, PartialEq, Eq)]
pub enum FinalStep {
    Signal { signal: GroupSignal, next: FinalStage },
    Look(FinalStage),
    Finished(Result<(), ProtocolError>),
}

/// What is seen of a worker's process group, once its dead have been collected.
#[derive(Clone, Copy, Debug, PartialEq, Eq, Structural)]
pub struct GroupSight {
    pub exists: bool,
    /// The time of the stage is over.
    pub expired: bool,
}

/// What follows a look at the group. A group that does not end by itself is
/// asked to, then killed; one that outlives that is an error.
pub open spec fn final_step(stage: FinalStage, sight: GroupSight) -> FinalStep {
    match stage {
        FinalStage::Begin => if sight.expired {
            FinalStep::Finished(Err(ProtocolError::DeadlineExceeded))
        } else if sight.exists {
            FinalStep::Signal { signal: GroupSignal::Terminate, next: FinalStage::Grace }
        } else {
            FinalStep::Look(FinalStage::Last)
        },
        FinalStage::Grace => if !sight.exists {
            FinalStep::Look(FinalStage::Last)
        } else if sight.expired {
            FinalStep::Signal { signal: GroupSignal::Kill, next: FinalStage::Killed }
        } else {
            FinalStep::Look(FinalStage::Grace)
        },
        FinalStage::Killed => if !sight.exists {
            FinalStep::Look(FinalStage::Last)
        } else if sight.expired {
            FinalStep::Finished(Err(ProtocolError::ProcessGroupSurvived))
        } else {
            FinalStep::Look(FinalStage::Killed)
        },
        FinalStage::Last => if sight.exists {
            FinalStep::Finished(Err(ProtocolError::ProcessGroupSurvived))
        } else {
            FinalStep::Finished(Ok(()))
        },
    }
}

pub fn success_finalize(stage: FinalStage, sight: GroupSight) -> (step: FinalStep)
    ensures
        step == final_step(stage, sight),
{
    match stage {
        FinalStage::Begin => {
            if sight.expired {
                FinalStep::Finished(Err(ProtocolError::DeadlineExceeded))
            } else if sight.exists {
                FinalStep::Signal { signal: GroupSignal::Terminate, next: FinalStage::Grace }
            } else {
                FinalStep::Look(FinalStage::Last)
            }
        },
        FinalStage::Grace => {
            if !sight.exists {
                FinalStep::Look(FinalStage::Last)
            } else if sight.expired {
                FinalStep::Signal { signal: GroupSignal::Kill, next: FinalStage::Killed }
            } else {
                FinalStep::Look(FinalStage::Grace)
            }
        },
        FinalStage::Killed => {
            if !sight.exists {
                FinalStep::Look(FinalStage::Last)
            } else if sight.expired {
                FinalStep::Finished(Err(ProtocolError::ProcessGroupSurvived))
            } else {
                FinalStep::Look(FinalStage::Killed)
            }
        },
        FinalStage::Last => {
            if sight.exists {
                FinalStep::Finished(Err(ProtocolError::ProcessGroupSurvived))
            } else {
                FinalStep::Finished(Ok(()))
            }
        },
    }
}

/// A worker counts as ended only when its process group is gone, and the group
/// is killed only after it was asked to end.
pub proof fn success_leaves_no_group(stage: FinalStage, sight: GroupSight)
    ensures
        final_step(stage, sight) == FinalStep::Finished(Ok(())) ==> stage == FinalStage::Last
            && !sight.exists,
        final_step(stage, sight) matches FinalStep::Signal { signal: GroupSignal::Kill, .. }
            ==> stage == FinalStage::Grace && sight.expired,
{
}

/// What happens next while a worker is waited for.
#[derive(Clone, Copy, Debug, PartialEq, Eq, Structural)]
pub enum WaitStep {
    /// Get rid of the worker; the deadline has passed.
    TerminateAndFail,
    /// The worker has ended.
    Ended,
    Sleep,
}

/// The deadline is looked at before the worker is.
pub fn wait_until(deadline_passed: bool, ended: bool) -> (step: WaitStep)
    ensures
        step == (if deadline_passed {
            WaitStep::TerminateAndFail
        } else if ended {
            WaitStep::Ended
        } else {
            WaitStep::Sleep
        }),
{
    if deadline_passed {
        WaitStep::TerminateAndFail
    } else if ended {
        WaitStep::Ended
    } else {
        WaitStep::Sleep
    }
}

/// The words that a worker is started with, behind the program's name.
pub fn worker_arguments() -> (words: Vec<Vec<u8>>)
    ensures
        words@.len() == 3,
        words@[0]@ == encode_utf8("--worker"@),
        words@[1]@ == encode_utf8("--protocol-fd"@),
        number(words@[2]@) == Some(PROTOCOL_FD as nat),
{
    let mut words: Vec<Vec<u8>> = Vec::new();
    let mut descriptor: Vec<u8> = Vec::new();
    descriptor.push(51);
    assert(descriptor@ =~= seq![51u8]);
    proof {
        descriptor_is_written();
    }
    words.push(copied("--worker".as_bytes()));
    words.push(copied("--protocol-fd".as_bytes()));
    words.push(descriptor);
    words
}

fn copied(bytes: &[u8]) -> (copy: Vec<u8>)
    ensures
        copy@ == bytes@,
{
    let mut copy: Vec<u8> = Vec::new();
    copy.extend_from_slice(bytes);
    assert(copy@ =~= bytes@);
    copy
}

proof fn descriptor_is_written()
    ensures
        number(seq![51u8]) == Some(PROTOCOL_FD as nat),
{
    let digits = seq![51u8];
    assert(digits_of(digits) == digits);
    assert(digits.drop_last() =~= Seq::<u8>::empty());
    assert(digits_value(Seq::<u8>::empty()) == 0);
}

/// What a parent does with a worker, one after the other.
#[derive(Clone, Copy, Debug, PartialEq, Eq, Structural)]
pub enum LaunchStep {
    /// Draw a capability and open a channel.
    Prepare,
    Spawn,
    SendRequest,
    /// Let the worker see the end of the request.
    CloseSending,
    ReadHeader,
    ReadOutput { length: usize },
    RequireEnd,
    WaitForExit,
    /// See that the worker leaves no process behind.
    Finalize,
    Accepted,
    Failed(ProtocolError),
}

/// How a step of a launch ended.
#[derive(Clone, Copy, Debug, PartialEq, Eq)]
pub enum LaunchEvent {
    Done,
    Header([u8; 4]),
    Exited { success: bool, capability_matches: bool },
    Failed(ProtocolError),
}

/// What follows a step of a launch.
pub open spec fn launch_step(step: LaunchStep, event: LaunchEvent) -> LaunchStep {
    match (step, event) {
        (LaunchStep::Accepted, _) => step,
        (LaunchStep::Failed(_), _) => step,
        (_, LaunchEvent::Failed(error)) => LaunchStep::Failed(error),
        (LaunchStep::Prepare, LaunchEvent::Done) => LaunchStep::Spawn,
        (LaunchStep::Spawn, LaunchEvent::Done) => LaunchStep::SendRequest,
        (LaunchStep::SendRequest, LaunchEvent::Done) => LaunchStep::CloseSending,
        (LaunchStep::CloseSending, LaunchEvent::Done) => LaunchStep::ReadHeader,
        (LaunchStep::ReadHeader, LaunchEvent::Header(header)) => if length_of(header@)
            <= MAX_PROTOCOL_BYTES {
            LaunchStep::ReadOutput { length: length_of(header@) as usize }
        } else {
            LaunchStep::Failed(ProtocolError::PayloadOverflow)
        },
        (LaunchStep::ReadOutput { .. }, LaunchEvent::Done) => LaunchStep::RequireEnd,
        (LaunchStep::RequireEnd, LaunchEvent::Done) => LaunchStep::WaitForExit,
        (LaunchStep::WaitForExit, LaunchEvent::Exited { success, capability_matches }) =>
        if !success {
            LaunchStep::Failed(ProtocolError::WorkerFailed)
        } else if !capability_matches {
            LaunchStep::Failed(ProtocolError::OutputCapabilityMismatch)
        } else {
            LaunchStep::Finalize
        },
        (LaunchStep::Finalize, LaunchEvent::Done) => LaunchStep::Accepted,
        _ => LaunchStep::Failed(ProtocolError::Failed),
    }
}

/// Continues a launch. An output is taken only from a worker that has ended
/// well, was the one that was asked, and is gone with all that it started.
pub fn launch_worker(step: LaunchStep, event: LaunchEvent) -> (next: LaunchStep)
    ensures
        next == launch_step(step, event),
{
    match (step, event) {
        (LaunchStep::Accepted, _) => step,
        (LaunchStep::Failed(_), _) => step,
        (_, LaunchEvent::Failed(error)) => LaunchStep::Failed(error),
        (LaunchStep::Prepare, LaunchEvent::Done) => LaunchStep::Spawn,
        (LaunchStep::Spawn, LaunchEvent::Done) => LaunchStep::SendRequest,
        (LaunchStep::SendRequest, LaunchEvent::Done) => LaunchStep::CloseSending,
        (LaunchStep::CloseSending, LaunchEvent::Done) => LaunchStep::ReadHeader,
        (LaunchStep::ReadHeader, LaunchEvent::Header(header)) => match frame_length(
            header,
            MAX_PROTOCOL_BYTES,
        ) {
            Ok(length) => LaunchStep::ReadOutput { length },
            Err(error) => LaunchStep::Failed(error),
        },
        (LaunchStep::ReadOutput { .. }, LaunchEvent::Done) => LaunchStep::RequireEnd,
        (LaunchStep::RequireEnd, LaunchEvent::Done) => LaunchStep::WaitForExit,
        (LaunchStep::WaitForExit, LaunchEvent::Exited { success, capability_matches }) => {
            if !success {
                LaunchStep::Failed(ProtocolError::WorkerFailed)
            } else if !capability_matches {
                LaunchStep::Failed(ProtocolError::OutputCapabilityMismatch)
            } else {
                LaunchStep::Finalize
            }
        },
        (LaunchStep::Finalize, LaunchEvent::Done) => LaunchStep::Accepted,
        _ => LaunchStep::Failed(ProtocolError::Failed),
    }
}

/// The place of a step in a launch that goes well.
pub open spec fn launch_place(step: LaunchStep) -> int {
    match step {
        LaunchStep::Prepare => 0,
        LaunchStep::Spawn => 1,
        LaunchStep::SendRequest => 2,
        LaunchStep::CloseSending => 3,
        LaunchStep::ReadHeader => 4,
        LaunchStep::ReadOutput { .. } => 5,
        LaunchStep::RequireEnd => 6,
        LaunchStep::WaitForExit => 7,
        LaunchStep::Finalize => 8,
        LaunchStep::Accepted => 9,
        LaunchStep::Failed(_) => -1,
    }
}

/// `steps` are the steps of a launch, driven by `events`.
pub open spec fn is_launch(steps: Seq<LaunchStep>, events: Seq<LaunchEvent>) -> bool {
    &&& steps.len() == events.len() + 1
    &&& steps[0] == LaunchStep::Prepare
    &&& forall|i: int|
        0 <= i < events.len() ==> #[trigger] launch_step(steps[i], events[i]) == steps[i + 1]
}

/// A launch whose output is accepted has taken every step, one after the other,
/// and its worker ended well and was the one that was asked.
pub proof fn accepted_outputs_took_every_step(
    steps: Seq<LaunchStep>,
    events: Seq<LaunchEvent>,
    last: int,
)
    requires
        is_launch(steps, events),
        0 <= last < steps.len(),
        steps[last] == LaunchStep::Accepted,
    ensures
        last >= 9,
        forall|i: int| 0 <= i <= 9 ==> launch_place(#[trigger] steps[i]) == i,
        events[7] == (LaunchEvent::Exited { success: true, capability_matches: true }),
{
    steps_follow_their_places(steps, events, last);
    assert(launch_place(steps[last]) == 9);
    assert forall|i: int| 0 <= i <= 9 implies launch_place(#[trigger] steps[i]) == i by {
        steps_follow_their_places(steps, events, i);
        failures_stay(steps, events, i, last);
    }
    assert(launch_place(steps[7]) == 7 && launch_place(steps[8]) == 8);
    assert(launch_step(steps[7], events[7]) == steps[8]);
}

proof fn steps_follow_their_places(steps: Seq<LaunchStep>, events: Seq<LaunchEvent>, at: int)
    requires
        is_launch(steps, events),
        0 <= at < steps.len(),
    ensures
        launch_place(steps[at]) == at || launch_place(steps[at]) == -1 || (launch_place(steps[at])
            == 9 && at >= 9),
    decreases at,
{
    if at > 0 {
        steps_follow_their_places(steps, events, at - 1);
        assert(launch_step(steps[at - 1], events[at - 1]) == steps[at]);
    }
}

proof fn failures_stay(steps: Seq<LaunchStep>, events: Seq<LaunchEvent>, at: int, last: int)
    requires
        is_launch(steps, events),
        0 <= at <= last < steps.len(),
        steps[last] == LaunchStep::Accepted,
    ensures
        launch_place(steps[at]) != -1,
    decreases last - at,
{
    if at < last {
        failures_stay(steps, events, at + 1, last);
        assert(launch_step(steps[at], events[at]) == steps[at + 1]);
    }
}


/// The length of a frame stands before it in four bytes, the highest first.
pub proof fn lengths_are_written_highest_byte_first(header: Seq<u8>, length: nat)
    requires
        header.len() == 4,
        length < 0x1_0000_0000,
    ensures
        length_of(header) == ((header[0] * 256 + header[1]) * 256 + header[2]) * 256 + header[3],
        header_of(length) == header <==> length == ((header[0] * 256 + header[1]) * 256 + header[2])
            * 256 + header[3],
{
    let named = ((header[0] * 256 + header[1]) * 256 + header[2]) * 256 + header[3];
    if length == named {
        assert(header_of(length) =~= header);
    }
    if header_of(length) == header {
        assert(header_of(length)[0] == header[0] && header_of(length)[1] == header[1]);
        assert(header_of(length)[2] == header[2] && header_of(length)[3] == header[3]);
    }
}

/// A group of processes is asked to end, then killed, and only left once it is gone; a
/// group that does not go, or a deadline that has passed before, is a failure.
pub proof fn groups_are_ended_in_turn(stage: FinalStage, sight: GroupSight)
    ensures
        stage == FinalStage::Begin && sight.expired ==> final_step(stage, sight)
            == FinalStep::Finished(Err::<(), ProtocolError>(ProtocolError::DeadlineExceeded)),
        stage == FinalStage::Begin && !sight.expired && sight.exists ==> final_step(stage, sight)
            == (FinalStep::Signal { signal: GroupSignal::Terminate, next: FinalStage::Grace }),
        stage == FinalStage::Grace && sight.exists && sight.expired ==> final_step(stage, sight)
            == (FinalStep::Signal { signal: GroupSignal::Kill, next: FinalStage::Killed }),
        stage == FinalStage::Killed && sight.exists && sight.expired ==> final_step(stage, sight)
            == FinalStep::Finished(Err::<(), ProtocolError>(ProtocolError::ProcessGroupSurvived)),
        stage == FinalStage::Last && sight.exists ==> final_step(stage, sight)
            == FinalStep::Finished(Err::<(), ProtocolError>(ProtocolError::ProcessGroupSurvived)),
        stage == FinalStage::Last && !sight.exists ==> final_step(stage, sight)
            == FinalStep::Finished(Ok::<(), ProtocolError>(())),
        (stage == FinalStage::Grace || stage == FinalStage::Killed) && !sight.exists ==> final_step(
            stage,
            sight,
        ) == FinalStep::Look(FinalStage::Last),
        (stage == FinalStage::Grace || stage == FinalStage::Killed) && sight.exists && !sight.expired
            ==> final_step(stage, sight) == FinalStep::Look(stage),
        stage == FinalStage::Begin && !sight.expired && !sight.exists ==> final_step(stage, sight)
            == FinalStep::Look(FinalStage::Last),
{
}

/// A launch goes on wherever a step is done, reads as many bytes as the header says, and
/// keeps the failure of the step that failed.
pub proof fn launches_go_on_or_keep_their_failure(
    step: LaunchStep,
    header: [u8; 4],
    error: ProtocolError,
)
    ensures
        step == LaunchStep::Prepare || step == LaunchStep::Spawn || step == LaunchStep::SendRequest
            || step == LaunchStep::CloseSending || step is ReadOutput || step
            == LaunchStep::RequireEnd || step == LaunchStep::Finalize ==> launch_place(
            launch_step(step, LaunchEvent::Done),
        ) == launch_place(step) + 1,
        step == LaunchStep::ReadHeader ==> (launch_step(step, LaunchEvent::Header(header))
            is ReadOutput <==> length_of(header@) <= 335544320),
        step == LaunchStep::ReadHeader ==> (launch_step(
            step,
            LaunchEvent::Header(header),
        ) matches LaunchStep::ReadOutput { length } ==> length == length_of(header@)),
        step == LaunchStep::ReadHeader && length_of(header@) > 335544320 ==> launch_step(
            step,
            LaunchEvent::Header(header),
        ) == LaunchStep::Failed(ProtocolError::PayloadOverflow),
        !(step is Accepted) && !(step is Failed) ==> launch_step(step, LaunchEvent::Failed(error))
            == LaunchStep::Failed(error),
        step is Failed ==> launch_step(step, LaunchEvent::Done) == step,
        step == LaunchStep::WaitForExit ==> {
            &&& launch_step(
                step,
                LaunchEvent::Exited { success: true, capability_matches: true },
            ) == LaunchStep::Finalize
            &&& launch_step(
                step,
                LaunchEvent::Exited { success: true, capability_matches: false },
            ) == LaunchStep::Failed(ProtocolError::OutputCapabilityMismatch)
            &&& launch_step(
                step,
                LaunchEvent::Exited { success: false, capability_matches: true },
            ) == LaunchStep::Failed(ProtocolError::WorkerFailed)
        },
{
}

/// What a transfer does that moves nothing: writing finds its end closed, reading an end
/// too early, and waiting for the end has found it.
pub proof fn moving_nothing_ends_a_transfer(transfer: Transfer)
    requires
        transfer.wf(),
    ensures
        transfer.direction == Direction::Write ==> transfer.nothing_moved() == Err::<
            (),
            ProtocolError,
        >(ProtocolError::WriteClosed),
        transfer.direction == Direction::Read ==> transfer.nothing_moved() == Err::<
            (),
            ProtocolError,
        >(ProtocolError::UnexpectedEof),
        transfer.direction == Direction::End ==> transfer.nothing_moved() == Ok::<
            (),
            ProtocolError,
        >(()),
        transfer.direction == Direction::End || transfer.done < transfer.total
            ==> transfer.next_step() == (if transfer.blocked {
            TransferStep::Poll
        } else {
            TransferStep::CheckDeadline
        }),
{
}

} // verus!
