//! Camera capture: device choice, negotiation, backends and their fallback, and
//! what is read from and said about the compatibility backend.
use crate::frame::{CameraError, CaptureFormat, Frame, NegotiatedFormat};
use crate::order::{bytes_before, is_order, key_less, key_less_is_strict_total, order_by};
use crate::raw::{capture_format_from_fourcc, checked_frame_len, fourcc_format, frame_len};
use crate::text::{
    ascii_lowercase, bytes_contain, bytes_eq, contains, decimal, decode_lossy, lossy_text,
    lowercase, push_decimal, trim, trimmed,
};
use std::collections::VecDeque;
use vstd::prelude::*;
use vstd::string::*;
use vstd::utf8::*;

verus! {

pub const FFMPEG_STDERR_TAIL_BYTES: usize = 16384;

/// Pre-resolved camera parameters, computed once.
#[derive(Debug)]
pub struct CameraProfile {
    pub device_path: String,
    pub width: u32,
    pub height: u32,
    pub format: CaptureFormat,
    pub fps: i32,
    pub exposure: i32,
}

impl CameraProfile {
    /// The profile of a device whose format has been negotiated.
    pub fn negotiated(
        device_path: String,
        negotiated: &NegotiatedFormat,
        format: CaptureFormat,
        fps: i32,
        exposure: i32,
    ) -> (profile: Self)
        ensures
            profile == (CameraProfile {
                device_path,
                width: negotiated.width,
                height: negotiated.height,
                format,
                fps,
                exposure,
            }),
    {
        CameraProfile {
            device_path,
            width: negotiated.width,
            height: negotiated.height,
            format,
            fps,
            exposure,
        }
    }
}

/// The parameters of a camera that has not been started.
#[derive(Debug)]
pub struct Camera {
    width: u32,
    height: u32,
    format: CaptureFormat,
    device_path: String,
    fps: i32,
    exposure: i32,
}

impl Camera {
    pub closed spec fn describes(&self, profile: CameraProfile) -> bool {
        &&& self.width == profile.width
        &&& self.height == profile.height
        &&& self.format == profile.format
        &&& self.device_path@ == profile.device_path@
        &&& self.fps == profile.fps
        &&& self.exposure == profile.exposure
    }

    pub closed spec fn frame_width(&self) -> u32 {
        self.width
    }

    pub closed spec fn frame_height(&self) -> u32 {
        self.height
    }

    /// A camera with the parameters of a profile.
    pub fn from_profile(profile: &CameraProfile) -> (camera: Self)
        ensures
            camera.describes(*profile),
            camera.frame_width() == profile.width,
            camera.frame_height() == profile.height,
    {
        Camera {
            width: profile.width,
            height: profile.height,
            format: profile.format,
            device_path: profile.device_path.clone(),
            fps: profile.fps,
            exposure: profile.exposure,
        }
    }

    pub fn width(&self) -> (width: u32)
        ensures
            width == self.frame_width(),
    {
        self.width
    }

    pub fn height(&self) -> (height: u32)
        ensures
            height == self.frame_height(),
    {
        self.height
    }
}

/// The most recent thing that a capture worker has to say.
#[derive(Debug)]
pub enum CaptureMessage {
    Frame(Frame),
    Error(String),
}

/// How waking the receiver went.
#[derive(Clone, Copy, Debug, PartialEq, Eq, Structural)]
pub enum NotifyOutcome {
    Sent,
    /// A wake-up is pending already.
    Full,
    Disconnected,
}

/// Puts a message in the slot, over any older one. `notify` is how waking the
/// receiver went; the result tells whether there still is one.
pub fn publish_message(
    slot: &mut Option<CaptureMessage>,
    notify: NotifyOutcome,
    message: CaptureMessage,
) -> (delivered: bool)
    ensures
        *final(slot) == Some(message),
        delivered == (notify != NotifyOutcome::Disconnected),
{
    *slot = Some(message);
    match notify {
        NotifyOutcome::Sent | NotifyOutcome::Full => true,
        NotifyOutcome::Disconnected => false,
    }
}

/// Takes the message out of the slot.
pub fn take_latest_message(slot: &mut Option<CaptureMessage>) -> (message: Option<CaptureMessage>)
    ensures
        message == *old(slot),
        *final(slot) is None,
{
    slot.take()
}

/// The frame or the error that a message carries.
pub fn decode_capture_message(message: CaptureMessage) -> (frame: Result<Frame, String>)
    ensures
        frame == (match message {
            CaptureMessage::Frame(frame) => Ok(frame),
            CaptureMessage::Error(text) => Err(text),
        }),
{
    match message {
        CaptureMessage::Frame(frame) => Ok(frame),
        CaptureMessage::Error(text) => Err(text),
    }
}

/// How waiting for the next message ended.
#[derive(Clone, Copy, Debug, PartialEq, Eq, Structural)]
pub enum WaitOutcome {
    Notified,
    TimedOut { seconds: u64 },
    Disconnected,
}

/// The error that a wait ends with; `None` where the receiver looks again.
pub fn wait_failure(outcome: WaitOutcome) -> (failure: Option<String>)
    ensures
        match outcome {
            WaitOutcome::Notified => failure is None,
            WaitOutcome::TimedOut { seconds } => failure matches Some(text) && text@
                == "timed out waiting for camera frame after "@ + decimal(seconds as nat) + "s"@,
            WaitOutcome::Disconnected => failure matches Some(text) && text@
                == "camera capture worker stopped unexpectedly"@,
        },
{
    match outcome {
        WaitOutcome::Notified => None,
        WaitOutcome::TimedOut { seconds } => {
            let mut text = "timed out waiting for camera frame after ".to_owned();
            push_decimal(&mut text, seconds);
            text.append("s");
            Some(text)
        },
        WaitOutcome::Disconnected => Some("camera capture worker stopped unexpectedly".to_owned()),
    }
}

/// What has happened in a capture worker.
#[derive(Debug)]
pub enum WorkerEvent {
    BackendStarted,
    BackendFailed { reason: String },
    StopPolled { stop: bool },
    FramePublished { receiver_alive: bool },
    FellBack,
    CaptureFailed { reason: String },
}

/// What a capture worker does next.
#[derive(Debug)]
pub enum WorkerAction {
    PollStop,
    Capture,
    PublishAndStop { message: String },
    Stop,
}

/// One turn of the capture worker: it looks for a stop request before every
/// frame, goes on after a frame or a fallback, and ends where there is nobody
/// to capture for or nothing to capture from.
pub fn capture_worker_loop(event: WorkerEvent) -> (action: WorkerAction)
    ensures
        match event {
            WorkerEvent::BackendStarted => action is PollStop,
            WorkerEvent::BackendFailed { reason } => action matches WorkerAction::PublishAndStop {
                message,
            } && message@ == "failed to start camera backend: "@ + reason@,
            WorkerEvent::StopPolled { stop } => if stop {
                action is Stop
            } else {
                action is Capture
            },
            WorkerEvent::FramePublished { receiver_alive } => if receiver_alive {
                action is PollStop
            } else {
                action is Stop
            },
            WorkerEvent::FellBack => action is PollStop,
            WorkerEvent::CaptureFailed { reason } => action matches WorkerAction::PublishAndStop {
                message,
            } && message@ == "camera backend capture failed: "@ + reason@,
        },
{
    match event {
        WorkerEvent::BackendStarted | WorkerEvent::FellBack => WorkerAction::PollStop,
        WorkerEvent::BackendFailed { reason } => {
            let mut message = "failed to start camera backend: ".to_owned();
            message.append(reason.as_str());
            WorkerAction::PublishAndStop { message }
        },
        WorkerEvent::StopPolled { stop } => {
            if stop {
                WorkerAction::Stop
            } else {
                WorkerAction::Capture
            }
        },
        WorkerEvent::FramePublished { receiver_alive } => {
            if receiver_alive {
                WorkerAction::PollStop
            } else {
                WorkerAction::Stop
            }
        },
        WorkerEvent::CaptureFailed { reason } => {
            let mut message = "camera backend capture failed: ".to_owned();
            message.append(reason.as_str());
            WorkerAction::PublishAndStop { message }
        },
    }
}

/// `attempt` can give `outcome`.
pub open spec fn attempted<T, E, F: FnOnce() -> Result<T, E>>(
    attempt: F,
    outcome: Result<T, E>,
) -> bool {
    call_ensures(attempt, (), outcome)
}

/// `attempt` can fail.
pub open spec fn may_fail<T, E, F: FnOnce() -> Result<T, E>>(attempt: F) -> bool {
    exists|error: E| #[trigger] attempted(attempt, Err(error))
}

/// Why no backend could be started.
#[derive(Debug, PartialEq, Eq)]
pub struct BackendStartError<E> {
    pub v4l2: E,
    pub ffmpeg: E,
}

/// Starts the direct backend, and the compatibility backend only where the
/// direct one has failed.
pub fn start_backend_with<T, E, F, G>(try_v4l2: F, try_ffmpeg: G) -> (started: Result<
    T,
    BackendStartError<E>,
>) where F: FnOnce() -> Result<T, E>, G: FnOnce() -> Result<T, E>
    requires
        call_requires(try_v4l2, ()),
        may_fail::<T, E, F>(try_v4l2) ==> call_requires(try_ffmpeg, ()),
    ensures
        match started {
            Ok(backend) => attempted(try_v4l2, Ok(backend)) || (may_fail::<T, E, F>(try_v4l2)
                && attempted(try_ffmpeg, Ok(backend))),
            Err(error) => attempted(try_v4l2, Err(error.v4l2)) && attempted(
                try_ffmpeg,
                Err(error.ffmpeg),
            ),
        },
{
    let direct = try_v4l2();
    assert(attempted(try_v4l2, direct));
    match direct {
        Ok(backend) => Ok(backend),
        Err(v4l2) => {
            let fallback = try_ffmpeg();
            assert(attempted(try_ffmpeg, fallback));
            match fallback {
                Ok(backend) => Ok(backend),
                Err(ffmpeg) => Err(BackendStartError { v4l2, ffmpeg }),
            }
        },
    }
}

/// The text for a camera that neither backend could start.
pub fn backend_start_message(v4l2: &str, ffmpeg: &str) -> (message: String)
    ensures
        message@ == "V4L2 mmap backend failed: "@ + v4l2@ + "; optional FFmpeg fallback failed: "@
            + ffmpeg@,
{
    let mut message = "V4L2 mmap backend failed: ".to_owned();
    message.append(v4l2);
    message.append("; optional FFmpeg fallback failed: ");
    message.append(ffmpeg);
    message
}

/// The text for a capture that failed together with its fallback.
pub fn capture_fallback_message(capture: &str, fallback: &str) -> (message: String)
    ensures
        message@ == "V4L2 capture failed: "@ + capture@ + "; optional FFmpeg fallback failed: "@
            + fallback@,
{
    let mut message = "V4L2 capture failed: ".to_owned();
    message.append(capture);
    message.append("; optional FFmpeg fallback failed: ");
    message.append(fallback);
    message
}

/// Gives up the failed backend, and only then constructs what replaces it: the
/// device is free again when the replacement opens it.
pub fn construct_fallback_after_release<T, U, E, F: FnOnce() -> Result<U, E>>(
    failed_backend: &mut Option<T>,
    construct: F,
) -> (built: Result<U, E>)
    requires
        call_requires(construct, ()),
    ensures
        *final(failed_backend) is None,
        attempted(construct, built),
{
    {
        let _released = failed_backend.take();
    }
    let built = construct();
    assert(attempted(construct, built));
    built
}

/// A source of frames.
pub trait BackendCapture: Sized {
    type Error;

    /// A source that is asked for a frame can give `frame` and be `after` then. One
    /// that does not say more can give any.
    open spec fn captured(before: Self, after: Self, frame: Result<Frame, Self::Error>) -> bool {
        true
    }

    fn next_frame(&mut self) -> (frame: Result<Frame, Self::Error>)
        ensures
            Self::captured(*old(self), *final(self), frame),
    ;

    fn supports_fallback(&self) -> (supported: bool);
}

/// What one turn of capturing brought.
#[derive(Debug)]
pub enum BackendEvent<E> {
    Frame(Frame),
    FellBack(E),
}

#[derive(Debug)]
pub enum CaptureFailure<E> {
    MissingBackend,
    Capture(E),
    Fallback { capture: E, fallback: E },
}

/// What to do with the outcome of capturing a frame.
#[derive(Debug)]
pub enum CaptureDecision<E> {
    Deliver(Frame),
    FallBack(E),
    Fail(E),
}

/// A frame is delivered; a failure leads to the fallback where there is one.
pub fn decide_capture<E>(captured: Result<Frame, E>, supports_fallback: bool) -> (decision:
    CaptureDecision<E>)
    ensures
        decision == (match captured {
            Ok(frame) => CaptureDecision::Deliver(frame),
            Err(error) => if supports_fallback {
                CaptureDecision::FallBack(error)
            } else {
                CaptureDecision::Fail(error)
            },
        }),
{
    match captured {
        Ok(frame) => CaptureDecision::Deliver(frame),
        Err(error) => {
            if supports_fallback {
                CaptureDecision::FallBack(error)
            } else {
                CaptureDecision::Fail(error)
            }
        },
    }
}

/// `backend` can say `supported` of its fallback.
pub open spec fn says_fallback<B: BackendCapture>(backend: B, supported: bool) -> bool {
    call_ensures(B::supports_fallback, (&backend,), supported)
}

/// `backend` can fail with `error` when it is asked for a frame.
pub open spec fn can_fail<B: BackendCapture>(backend: B, error: B::Error) -> bool {
    exists|after: B| #[trigger] B::captured(backend, after, Err(error))
}

/// Captures one frame, replacing a backend that fails where it allows that. What
/// comes out is what the backend gave.
pub fn capture_backend_once<B, F>(backend: &mut Option<B>, construct_fallback: F) -> (event: Result<
    BackendEvent<B::Error>,
    CaptureFailure<B::Error>,
>) where B: BackendCapture, F: FnOnce() -> Result<B, B::Error>
    requires
        *old(backend) matches Some(current) ==> (says_fallback(current, true) && (exists|
            error: B::Error,
        | #[trigger] can_fail(current, error)) ==> call_requires(construct_fallback, ())),
    ensures
        (event matches Err(CaptureFailure::MissingBackend)) <==> *old(backend) is None,
        match event {
            Ok(BackendEvent::Frame(frame)) => *final(backend) is Some && B::captured(
                old(backend)->0,
                final(backend)->0,
                Ok(frame),
            ),
            Ok(BackendEvent::FellBack(capture)) => *final(backend) matches Some(fallback)
                && attempted(construct_fallback, Ok(fallback)) && says_fallback(
                old(backend)->0,
                true,
            ) && can_fail(old(backend)->0, capture),
            Err(CaptureFailure::MissingBackend) => *final(backend) is None,
            Err(CaptureFailure::Capture(error)) => *final(backend) is Some && says_fallback(
                old(backend)->0,
                false,
            ) && B::captured(old(backend)->0, final(backend)->0, Err(error)),
            Err(CaptureFailure::Fallback { capture, fallback }) => *final(backend) is None
                && attempted(construct_fallback, Err(fallback)) && says_fallback(
                old(backend)->0,
                true,
            ) && can_fail(old(backend)->0, capture),
        },
{
    let (captured, supports_fallback) = match backend.as_mut() {
        None => {
            return Err(CaptureFailure::MissingBackend);
        },
        Some(current) => {
            let ghost before = *current;
            let supports_fallback = current.supports_fallback();
            assert(says_fallback(before, supports_fallback));
            (current.next_frame(), supports_fallback)
        },
    };
    match decide_capture(captured, supports_fallback) {
        CaptureDecision::Deliver(frame) => Ok(BackendEvent::Frame(frame)),
        CaptureDecision::Fail(error) => Err(CaptureFailure::Capture(error)),
        CaptureDecision::FallBack(capture) => {
            assert(B::captured(old(backend)->0, backend->0, Err(capture)));
            assert(can_fail(old(backend)->0, capture));
            match construct_fallback_after_release(backend, construct_fallback) {
                Ok(fallback) => {
                    *backend = Some(fallback);
                    Ok(BackendEvent::FellBack(capture))
                },
                Err(fallback) => Err(CaptureFailure::Fallback { capture, fallback }),
            }
        },
    }
}

#[derive(Clone, Copy, Debug, PartialEq, Eq, Structural)]
pub enum ExposurePlan {
    Manual(i64),
    AperturePriority,
}

#[derive(Clone, Copy, Debug, PartialEq, Eq, Structural)]
pub struct CaptureSettingsPlan {
    pub fps: Option<u32>,
    pub exposure: ExposurePlan,
}

/// What is set on the device: a positive rate, and a manual exposure unless it
/// is negative.
pub fn capture_settings_plan(fps: i32, exposure: i32) -> (plan: CaptureSettingsPlan)
    ensures
        plan.fps == (if fps > 0 {
            Some(fps as u32)
        } else {
            None
        }),
        plan.exposure == (if exposure >= 0 {
            ExposurePlan::Manual(exposure as i64)
        } else {
            ExposurePlan::AperturePriority
        }),
{
    CaptureSettingsPlan {
        fps: if fps > 0 {
            Some(fps as u32)
        } else {
            None
        },
        exposure: if exposure >= 0 {
            ExposurePlan::Manual(exposure as i64)
        } else {
            ExposurePlan::AperturePriority
        },
    }
}

/// A device control that exposure is set by.
#[derive(Clone, Copy, Debug, PartialEq, Eq, Structural)]
pub enum ExposureControl {
    AutoManual,
    AutoAperturePriority,
    Absolute(i64),
}

/// The controls to set, in order: manual mode before the value.
pub fn exposure_controls(plan: ExposurePlan) -> (controls: Vec<ExposureControl>)
    ensures
        controls@ == (match plan {
            ExposurePlan::Manual(value) => seq![
                ExposureControl::AutoManual,
                ExposureControl::Absolute(value),
            ],
            ExposurePlan::AperturePriority => seq![ExposureControl::AutoAperturePriority],
        }),
{
    let mut controls: Vec<ExposureControl> = Vec::new();
    match plan {
        ExposurePlan::Manual(value) => {
            controls.push(ExposureControl::AutoManual);
            controls.push(ExposureControl::Absolute(value));
        },
        ExposurePlan::AperturePriority => controls.push(ExposureControl::AutoAperturePriority),
    }
    controls
}

/// The dimensions to ask a device for; 640 by 480 where none are wanted.
pub fn requested_dimensions(width: i32, height: i32) -> (dimensions: (u32, u32))
    ensures
        dimensions.0 == (if width > 0 {
            width as u32
        } else {
            640
        }),
        dimensions.1 == (if height > 0 {
            height as u32
        } else {
            480
        }),
{
    let columns: u32 = if width > 0 {
        width as u32
    } else {
        640
    };
    let rows: u32 = if height > 0 {
        height as u32
    } else {
        480
    };
    (columns, rows)
}

/// The format to ask for at each attempt.
pub open spec fn preferred(attempt: usize) -> Option<Seq<u8>> {
    if attempt == 0 {
        Some(seq![77u8, 74u8, 80u8, 71u8])
    } else if attempt == 1 {
        Some(seq![89u8, 85u8, 89u8, 86u8])
    } else if attempt == 2 {
        Some(seq![71u8, 82u8, 69u8, 89u8])
    } else {
        None
    }
}

/// The four-character code to ask for at an attempt; after the last one the
/// device's current format is taken.
pub fn preferred_fourcc(attempt: usize) -> (fourcc: Option<[u8; 4]>)
    ensures
        fourcc is Some <==> preferred(attempt) is Some,
        fourcc matches Some(code) ==> preferred(attempt) == Some(code@),
{
    if attempt == 0 {
        let code: [u8; 4] = [77, 74, 80, 71];
        assert(code@ =~= seq![77u8, 74u8, 80u8, 71u8]);
        Some(code)
    } else if attempt == 1 {
        let code: [u8; 4] = [89, 85, 89, 86];
        assert(code@ =~= seq![89u8, 85u8, 89u8, 86u8]);
        Some(code)
    } else if attempt == 2 {
        let code: [u8; 4] = [71, 82, 69, 89];
        assert(code@ =~= seq![71u8, 82u8, 69u8, 89u8]);
        Some(code)
    } else {
        None
    }
}

/// What follows one attempt to set a format. `actual` is the format that the
/// device set instead or as asked, `None` where it refused.
#[derive(Clone, Copy, Debug, PartialEq, Eq, Structural)]
pub enum NegotiationStep {
    Accept(CaptureFormat),
    Attempt(usize),
    UseCurrent,
}

/// Whatever the device has set is accepted as long as it is a known layout.
pub fn after_format_attempt(attempt: usize, actual: Option<[u8; 4]>) -> (step: NegotiationStep)
    requires
        attempt < 3,
    ensures
        step == (match actual {
            Some(fourcc) => match fourcc_format(fourcc@) {
                Some(format) => NegotiationStep::Accept(format),
                None => if attempt < 2 {
                    NegotiationStep::Attempt((attempt + 1) as usize)
                } else {
                    NegotiationStep::UseCurrent
                },
            },
            None => if attempt < 2 {
                NegotiationStep::Attempt((attempt + 1) as usize)
            } else {
                NegotiationStep::UseCurrent
            },
        }),
{
    let accepted: Option<CaptureFormat> = match actual {
        Some(fourcc) => match capture_format_from_fourcc(fourcc) {
            Ok(format) => Some(format),
            Err(_) => None,
        },
        None => None,
    };
    match accepted {
        Some(format) => NegotiationStep::Accept(format),
        None => {
            if attempt < 2 {
                NegotiationStep::Attempt(attempt + 1)
            } else {
                NegotiationStep::UseCurrent
            }
        },
    }
}

/// The encoded names of devices.
pub open spec fn name_keys(names: Seq<String>) -> Seq<Seq<u8>> {
    names.map_values(|name: String| encode_utf8(name@))
}

/// A device whose name speaks of infrared.
pub open spec fn is_infrared(name: Seq<char>) -> bool {
    contains(encode_utf8(lowercase(name)), encode_utf8("ir"@)) || contains(
        encode_utf8(lowercase(name)),
        encode_utf8("infrared"@),
    )
}

fn names_infrared(name: &str) -> (found: bool)
    ensures
        found == is_infrared(name@),
{
    let lowered = ascii_lowercase(name);
    let bytes = lowered.as_str().as_bytes();
    bytes_contain(bytes, "ir".as_bytes()) || bytes_contain(bytes, "infrared".as_bytes())
}

/// `order` lists the devices by name.
pub open spec fn is_name_order(names: Seq<String>, order: Seq<usize>) -> bool {
    is_order(order, names.len(), |a: int, b: int| key_less(name_keys(names), a, b))
}

/// `probes` tries infrared devices first, by name, and then all of them by name.
pub open spec fn probes_infrared_first(names: Seq<String>, probes: Seq<usize>) -> bool {
    exists|order: Seq<usize>|
        #[trigger] is_name_order(names, order) && probes == order.filter(|index: usize| is_infrared(names[index as int]@)) + order
}

/// The order in which devices are probed: the first one that can capture is used.
pub fn camera_probe_order(names: &Vec<String>) -> (probes: Vec<usize>)
    ensures
        probes_infrared_first(names@, probes@),
{
    let ghost keys = name_keys(names@);
    let ghost less = |a: int, b: int| key_less(keys, a, b);
    proof {
        key_less_is_strict_total(keys);
    }
    let before = |a: usize, b: usize| -> (earlier: bool)
        requires
            a < names.len(),
            b < names.len(),
        ensures
            earlier == key_less(name_keys(names@), a as int, b as int),
        {
            let left = names[a].as_str().as_bytes();
            let right = names[b].as_str().as_bytes();
            assert(name_keys(names@)[a as int] == left@);
            assert(name_keys(names@)[b as int] == right@);
            bytes_before(left, right) || (bytes_eq(left, right) && a < b)
        };
    let order = order_by(names.len(), &before, Ghost(less));
    let ghost keep = |index: usize| is_infrared(names@[index as int]@);
    let mut probes: Vec<usize> = Vec::new();
    let mut at: usize = 0;
    proof {
        reveal(Seq::filter);
        assert(order@.take(0) =~= Seq::<usize>::empty());
        assert(probes@ =~= order@.take(0).filter(keep));
    }
    while at < order.len()
        invariant
            at <= order@.len(),
            forall|i: int| 0 <= i < order@.len() ==> (#[trigger] order@[i]) < names@.len(),
            keep == (|index: usize| is_infrared(names@[index as int]@)),
            probes@ == order@.take(at as int).filter(keep),
        decreases order.len() - at,
    {
        proof {
            reveal(Seq::filter);
            assert(order@.take(at + 1).drop_last() =~= order@.take(at as int));
            assert(order@.take(at + 1).last() == order@[at as int]);
        }
        if names_infrared(names[order[at]].as_str()) {
            probes.push(order[at]);
        }
        at = at + 1;
    }
    assert(order@.take(order@.len() as int) =~= order@);
    let ghost infrared = probes@;
    let mut rest: usize = 0;
    while rest < order.len()
        invariant
            rest <= order@.len(),
            probes@ == infrared + order@.take(rest as int),
        decreases order.len() - rest,
    {
        probes.push(order[rest]);
        rest = rest + 1;
        assert(probes@ =~= infrared + order@.take(rest as int));
    }
    assert(probes@ =~= infrared + order@);
    proof {
        assert(is_name_order(names@, order@));
    }
    probes
}

pub fn ffmpeg_input_format(format: CaptureFormat) -> (name: &'static str)
    ensures
        name@ == input_name(format),
{
    match format {
        CaptureFormat::Grey => "gray",
        CaptureFormat::Yuyv => "yuyv422",
        CaptureFormat::Mjpeg => "mjpeg",
    }
}

pub open spec fn input_name(format: CaptureFormat) -> Seq<char> {
    match format {
        CaptureFormat::Grey => "gray"@,
        CaptureFormat::Yuyv => "yuyv422"@,
        CaptureFormat::Mjpeg => "mjpeg"@,
    }
}

pub fn ffmpeg_output_pix_fmt(format: CaptureFormat) -> (name: &'static str)
    ensures
        name@ == output_name(format),
{
    match format {
        CaptureFormat::Grey => "gray",
        CaptureFormat::Yuyv | CaptureFormat::Mjpeg => "bgr24",
    }
}

pub open spec fn output_name(format: CaptureFormat) -> Seq<char> {
    match format {
        CaptureFormat::Grey => "gray"@,
        _ => "bgr24"@,
    }
}

/// The views of a sequence of strings.
pub open spec fn texts(strings: Seq<String>) -> Seq<Seq<char>> {
    strings.map_values(|text: String| text@)
}

fn push_text(list: &mut Vec<String>, text: &str)
    ensures
        texts(final(list)@) == texts(old(list)@).push(text@),
{
    list.push(text.to_owned());
    assert(texts(list@) =~= texts(old(list)@).push(text@));
}

/// The command line of the compatibility backend. A rate that is not positive
/// is left to the device.
pub open spec fn ffmpeg_words(
    device: Seq<char>,
    width: u32,
    height: u32,
    format: CaptureFormat,
    fps: i32,
) -> Seq<Seq<char>> {
    let input = seq![
        "-hide_banner"@,
        "-loglevel"@,
        "error"@,
        "-nostdin"@,
        "-fflags"@,
        "nobuffer"@,
        "-flags"@,
        "low_delay"@,
        "-probesize"@,
        "32"@,
        "-analyzeduration"@,
        "0"@,
        "-f"@,
        "v4l2"@,
        "-input_format"@,
        input_name(format),
        "-video_size"@,
        crate::frame::size_text(width, height),
    ];
    let rate = if fps > 0 {
        seq!["-framerate"@, decimal(fps as nat)]
    } else {
        seq![]
    };
    let output = seq![
        "-i"@,
        device,
        "-pix_fmt"@,
        output_name(format),
        "-f"@,
        "rawvideo"@,
        "-"@,
    ];
    input + rate + output
}

pub fn ffmpeg_args(
    device: &str,
    width: u32,
    height: u32,
    format: CaptureFormat,
    fps: i32,
) -> (args: Vec<String>)
    ensures
        texts(args@) == ffmpeg_words(device@, width, height, format, fps),
{
    let mut args: Vec<String> = Vec::new();
    assert(texts(args@) =~= Seq::<Seq<char>>::empty());
    push_text(&mut args, "-hide_banner");
    push_text(&mut args, "-loglevel");
    push_text(&mut args, "error");
    push_text(&mut args, "-nostdin");
    push_text(&mut args, "-fflags");
    push_text(&mut args, "nobuffer");
    push_text(&mut args, "-flags");
    push_text(&mut args, "low_delay");
    push_text(&mut args, "-probesize");
    push_text(&mut args, "32");
    push_text(&mut args, "-analyzeduration");
    push_text(&mut args, "0");
    push_text(&mut args, "-f");
    push_text(&mut args, "v4l2");
    push_text(&mut args, "-input_format");
    push_text(&mut args, ffmpeg_input_format(format));
    push_text(&mut args, "-video_size");
    let mut size = String::new();
    push_decimal(&mut size, width as u64);
    size.append("x");
    push_decimal(&mut size, height as u64);
    assert(size@ =~= crate::frame::size_text(width, height));
    push_text(&mut args, size.as_str());
    if fps > 0 {
        push_text(&mut args, "-framerate");
        let rate = crate::text::decimal_text(fps as u64);
        push_text(&mut args, rate.as_str());
    }
    push_text(&mut args, "-i");
    push_text(&mut args, device);
    push_text(&mut args, "-pix_fmt");
    push_text(&mut args, ffmpeg_output_pix_fmt(format));
    push_text(&mut args, "-f");
    push_text(&mut args, "rawvideo");
    push_text(&mut args, "-");
    assert(texts(args@) =~= ffmpeg_words(device@, width, height, format, fps));
    args
}

/// The size of a frame of the compatibility backend. A gray frame must also
/// fit once it is expanded to color.
pub fn ffmpeg_frame_size(width: u32, height: u32, format: CaptureFormat) -> (size: Result<
    usize,
    CameraError,
>)
    ensures
        size == (if format == CaptureFormat::Grey {
            match frame_len(width, height, 1, "FFmpeg fallback") {
                Err(error) => Err(error),
                Ok(gray) => match frame_len(width, height, 3, "FFmpeg GREY BGR expansion") {
                    Err(error) => Err(error),
                    Ok(_) => Ok(gray),
                },
            }
        } else {
            frame_len(width, height, 3, "FFmpeg fallback")
        }),
{
    if format == CaptureFormat::Grey {
        match checked_frame_len(width, height, 1, "FFmpeg fallback") {
            Err(error) => Err(error),
            Ok(gray) => match checked_frame_len(width, height, 3, "FFmpeg GREY BGR expansion") {
                Err(error) => Err(error),
                Ok(_) => Ok(gray),
            },
        }
    } else {
        checked_frame_len(width, height, 3, "FFmpeg fallback")
    }
}

/// The last `capacity` bytes of `bytes`.
pub open spec fn last_bytes(bytes: Seq<u8>, capacity: nat) -> Seq<u8> {
    if bytes.len() <= capacity {
        bytes
    } else {
        bytes.skip(bytes.len() - capacity)
    }
}

/// The end of what a process has written to its error output.
#[derive(Debug)]
pub struct StderrTail {
    bytes: VecDeque<u8>,
    capacity: usize,
}

impl View for StderrTail {
    type V = Seq<u8>;

    closed spec fn view(&self) -> Seq<u8> {
        self.bytes@
    }
}

impl StderrTail {
    pub closed spec fn limit(&self) -> usize {
        self.capacity
    }

    pub open spec fn wf(&self) -> bool {
        self@.len() <= self.limit()
    }

    pub fn new(capacity: usize) -> (tail: Self)
        ensures
            tail@ == Seq::<u8>::empty(),
            tail.limit() == capacity,
            tail.wf(),
    {
        StderrTail { bytes: VecDeque::with_capacity(capacity), capacity }
    }

    /// Adds bytes, letting go of the oldest ones.
    pub fn push(&mut self, bytes: &[u8])
        requires
            old(self).wf(),
        ensures
            final(self)@ == last_bytes(old(self)@ + bytes@, old(self).limit() as nat),
            final(self).limit() == old(self).limit(),
            final(self).wf(),
    {
        let mut next: usize = 0;
        let ghost kept = self.bytes@;
        let capacity: usize = self.capacity;
        while next < bytes.len()
            invariant
                next <= bytes@.len(),
                self.capacity == capacity,
                self.bytes@.len() <= capacity,
                self.bytes@ == last_bytes(kept + bytes@.take(next as int), capacity as nat),
            decreases bytes.len() - next,
        {
            let ghost all = kept + bytes@.take(next as int);
            let ghost grown = kept + bytes@.take(next + 1);
            assert(grown =~= all.push(bytes@[next as int]));
            if self.bytes.len() == capacity && capacity > 0 {
                let _oldest = self.bytes.pop_front();
            }
            if capacity > 0 {
                self.bytes.push_back(bytes[next]);
            }
            next = next + 1;
            assert(self.bytes@ =~= last_bytes(grown, capacity as nat));
        }
        assert(bytes@.take(bytes@.len() as int) =~= bytes@);
    }

    /// The tail as text, without surrounding white space.
    pub fn snapshot(&self) -> (text: String)
        ensures
            text@ == trim(lossy_text(self@)),
    {
        let mut bytes: Vec<u8> = Vec::new();
        let mut next: usize = 0;
        while next < self.bytes.len()
            invariant
                next <= self.bytes@.len(),
                bytes@ == self.bytes@.take(next as int),
            decreases self.bytes@.len() - next,
        {
            bytes.push(self.bytes[next]);
            next = next + 1;
            assert(bytes@ =~= self.bytes@.take(next as int));
        }
        assert(bytes@ =~= self.bytes@);
        let decoded = decode_lossy(bytes.as_slice());
        trimmed(decoded.as_str())
    }
}

/// A tail shows the end of everything that was pushed, however it was divided.
pub proof fn tails_compose(before: Seq<u8>, first: Seq<u8>, second: Seq<u8>, capacity: nat)
    ensures
        last_bytes(last_bytes(before + first, capacity) + second, capacity) == last_bytes(
            before + first + second,
            capacity,
        ),
{
    assert(last_bytes(last_bytes(before + first, capacity) + second, capacity) =~= last_bytes(
        before + first + second,
        capacity,
    ));
}

/// Adds the error output, if there is any, to a message.
pub fn with_stderr_tail(message: &str, stderr: &str) -> (text: String)
    ensures
        text@ == (if stderr@.len() == 0 {
            message@
        } else {
            message@ + "; FFmpeg stderr tail: "@ + stderr@
        }),
{
    let mut text = message.to_owned();
    if !stderr.is_empty() {
        text.append("; FFmpeg stderr tail: ");
        text.append(stderr);
    }
    text
}

/// Why a frame was not read in full. `received` bytes of it have come.
#[derive(Debug, PartialEq, Eq)]
pub enum TimedReadFailure {
    Timeout { received: usize },
    Eof { received: usize },
    Io { received: usize, kind: String, message: String },
}

/// What the reader of a frame has seen.
#[derive(Debug)]
pub enum TimedReadEvent {
    /// The deadline has passed, or passed while waiting.
    Expired,
    /// There is something to read.
    Readable,
    /// A wait or a read was interrupted.
    Interrupted,
    Count(usize),
    Failed { kind: String, message: String },
}

/// What the reader of a frame does next: first it looks at the clock and waits,
/// then it reads.
#[derive(Clone, Copy, Debug, PartialEq, Eq, Structural)]
pub enum TimedReadAction {
    Wait,
    Read { from: usize },
}

#[derive(Debug)]
pub enum TimedReadStep {
    Perform(TimedReadAction),
    Finished(Result<(), TimedReadFailure>),
}

/// A read of `length` bytes against a deadline.
#[derive(Clone, Copy, Debug, PartialEq, Eq, Structural)]
pub struct TimedRead {
    pub length: usize,
    pub received: usize,
}

impl TimedRead {
    pub open spec fn wf(self) -> bool {
        self.received <= self.length
    }

    /// Starts a read; one of nothing is over at once.
    pub fn begin(length: usize) -> (started: (TimedRead, TimedReadStep))
        ensures
            started.0 == (TimedRead { length, received: 0 }),
            started.0.wf(),
            started.1 == started.0.waiting(),
    {
        let read = TimedRead { length, received: 0 };
        (read, read.wait())
    }

    /// What comes before the next read, if one is due.
    pub open spec fn waiting(self) -> TimedReadStep {
        if self.received >= self.length {
            TimedReadStep::Finished(Ok(()))
        } else {
            TimedReadStep::Perform(TimedReadAction::Wait)
        }
    }

    fn wait(self) -> (step: TimedReadStep)
        ensures
            step == self.waiting(),
    {
        if self.received >= self.length {
            TimedReadStep::Finished(Ok(()))
        } else {
            TimedReadStep::Perform(TimedReadAction::Wait)
        }
    }
}

/// Continues a read of a frame with what has been seen.
pub fn read_exact_until(read: &mut TimedRead, event: TimedReadEvent) -> (step: TimedReadStep)
    requires
        old(read).wf(),
        event matches TimedReadEvent::Count(count) ==> count <= old(read).length
            - old(read).received,
    ensures
        final(read).wf(),
        final(read).length == old(read).length,
        final(read).received == old(read).received + (match event {
            TimedReadEvent::Count(count) => count as int,
            _ => 0,
        }),
        match event {
            TimedReadEvent::Expired => step == TimedReadStep::Finished(
                Err(TimedReadFailure::Timeout { received: old(read).received }),
            ),
            TimedReadEvent::Readable => step == TimedReadStep::Perform(
                TimedReadAction::Read { from: old(read).received },
            ),
            TimedReadEvent::Interrupted => step == old(read).waiting(),
            TimedReadEvent::Count(count) => if count == 0 {
                step == TimedReadStep::Finished(
                    Err(TimedReadFailure::Eof { received: old(read).received }),
                )
            } else {
                step == final(read).waiting()
            },
            TimedReadEvent::Failed { kind, message } => step == TimedReadStep::Finished(
                Err(TimedReadFailure::Io { received: old(read).received, kind, message }),
            ),
        },
        step == TimedReadStep::Finished(Ok(())) ==> final(read).received == final(read).length,
{
    match event {
        TimedReadEvent::Expired => TimedReadStep::Finished(
            Err(TimedReadFailure::Timeout { received: read.received }),
        ),
        TimedReadEvent::Readable => TimedReadStep::Perform(
            TimedReadAction::Read { from: read.received },
        ),
        TimedReadEvent::Interrupted => read.wait(),
        TimedReadEvent::Count(count) => {
            if count == 0 {
                return TimedReadStep::Finished(
                    Err(TimedReadFailure::Eof { received: read.received }),
                );
            }
            read.received = read.received + count;
            read.wait()
        },
        TimedReadEvent::Failed { kind, message } => TimedReadStep::Finished(
            Err(TimedReadFailure::Io { received: read.received, kind, message }),
        ),
    }
}

/// How long to poll for, in milliseconds: rounded up, and no more than fits.
pub fn poll_timeout(remaining_millis: u64) -> (timeout: i32)
    ensures
        timeout as int == if remaining_millis >= i32::MAX {
            i32::MAX as int
        } else {
            remaining_millis + 1
        },
{
    if remaining_millis >= 2147483647 {
        2147483647
    } else {
        (remaining_millis + 1) as i32
    }
}

/// The count of received bytes as it stands in messages.
pub open spec fn progress_text(received: usize, expected: usize) -> Seq<char> {
    "("@ + decimal(received as nat) + "/"@ + decimal(expected as nat) + " bytes)"@
}

fn push_progress(text: &mut String, received: usize, expected: usize)
    ensures
        final(text)@ == old(text)@ + progress_text(received, expected),
{
    text.append("(");
    push_decimal(text, received as u64);
    text.append("/");
    push_decimal(text, expected as u64);
    text.append(" bytes)");
    assert(text@ =~= old(text)@ + progress_text(received, expected));
}

/// The message for a frame that did not come in time.
pub fn frame_timeout_message(
    timeout_millis: u64,
    description: &str,
    received: usize,
    expected: usize,
) -> (message: String)
    ensures
        message@ == "timed out after "@ + decimal(timeout_millis as nat) + "ms waiting for "@
            + description@ + " frame from FFmpeg "@ + progress_text(received, expected),
{
    let mut message = "timed out after ".to_owned();
    push_decimal(&mut message, timeout_millis);
    message.append("ms waiting for ");
    message.append(description);
    message.append(" frame from FFmpeg ");
    push_progress(&mut message, received, expected);
    message
}

/// The message for a frame that could not be read.
pub fn frame_read_message(
    description: &str,
    received: usize,
    expected: usize,
    kind: &str,
    cause: &str,
) -> (message: String)
    ensures
        message@ == "failed reading "@ + description@ + " frame from FFmpeg "@ + progress_text(
            received,
            expected,
        ) + ": "@ + kind@ + ": "@ + cause@,
{
    let mut message = "failed reading ".to_owned();
    message.append(description);
    message.append(" frame from FFmpeg ");
    push_progress(&mut message, received, expected);
    message.append(": ");
    message.append(kind);
    message.append(": ");
    message.append(cause);
    message
}

/// The message for output that ended inside a frame. `status` is that of the
/// process, `None` while it runs.
pub fn frame_ended_message(
    status: Option<&str>,
    description: &str,
    received: usize,
    expected: usize,
) -> (message: String)
    ensures
        message@ == (match status {
            Some(exit) => "FFmpeg exited "@ + exit@ + " before a complete "@,
            None => "FFmpeg closed its output before a complete "@,
        }) + description@ + " frame was read "@ + progress_text(received, expected),
{
    let mut message = match status {
        Some(exit) => {
            let mut start = "FFmpeg exited ".to_owned();
            start.append(exit);
            start.append(" before a complete ");
            start
        },
        None => "FFmpeg closed its output before a complete ".to_owned(),
    };
    message.append(description);
    message.append(" frame was read ");
    push_progress(&mut message, received, expected);
    message
}


/// A command line gives an option a value.
pub open spec fn gives(words: Seq<Seq<char>>, option: Seq<char>, value: Seq<char>) -> bool {
    exists|i: int| 0 <= i < words.len() - 1 && #[trigger] words[i] == option && words[i + 1] == value
}

/// The command line of the compatibility backend reads the device through its driver,
/// in the format and of the size that were negotiated, and at the rate that is wanted
/// where one is; it reads nothing else, keeps nothing back, and writes bare frames of
/// gray or of three bytes for each pixel to its output.
pub proof fn ffmpeg_is_told_what_was_negotiated(
    device: Seq<char>,
    width: u32,
    height: u32,
    format: CaptureFormat,
    fps: i32,
)
    ensures
        ({
            let words = ffmpeg_words(device, width, height, format, fps);
            &&& gives(words, "-f"@, "v4l2"@)
            &&& gives(
                words,
                "-input_format"@,
                match format {
                    CaptureFormat::Mjpeg => "mjpeg"@,
                    CaptureFormat::Yuyv => "yuyv422"@,
                    CaptureFormat::Grey => "gray"@,
                },
            )
            &&& gives(
                words,
                "-video_size"@,
                decimal(width as nat) + "x"@ + decimal(height as nat),
            )
            &&& fps > 0 ==> gives(words, "-framerate"@, decimal(fps as nat))
            &&& gives(words, "-i"@, device)
            &&& gives(
                words,
                "-pix_fmt"@,
                if format is Grey {
                    "gray"@
                } else {
                    "bgr24"@
                },
            )
            &&& gives(words, "-f"@, "rawvideo"@)
            &&& gives(words, "-loglevel"@, "error"@)
            &&& gives(words, "-fflags"@, "nobuffer"@)
            &&& gives(words, "-flags"@, "low_delay"@)
            &&& gives(words, "-probesize"@, "32"@)
            &&& gives(words, "-analyzeduration"@, "0"@)
            &&& words.contains("-nostdin"@) && words.contains("-hide_banner"@)
            &&& words.last() == "-"@
            &&& words.len() == (if fps > 0 {
                27nat
            } else {
                25
            })
        }),
{
    let words = ffmpeg_words(device, width, height, format, fps);
    let shift: int = if fps > 0 {
        2
    } else {
        0
    };
    assert(words[0] == "-hide_banner"@);
    assert(words[1] == "-loglevel"@ && words[2] == "error"@);
    assert(words[3] == "-nostdin"@);
    assert(words[4] == "-fflags"@ && words[5] == "nobuffer"@);
    assert(words[6] == "-flags"@ && words[7] == "low_delay"@);
    assert(words[8] == "-probesize"@ && words[9] == "32"@);
    assert(words[10] == "-analyzeduration"@ && words[11] == "0"@);
    assert(words[12] == "-f"@ && words[13] == "v4l2"@);
    assert(words[14] == "-input_format"@ && words[15] == input_name(format));
    assert(words[16] == "-video_size"@ && words[17] == crate::frame::size_text(width, height));
    if fps > 0 {
        assert(words[18] == "-framerate"@ && words[19] == decimal(fps as nat));
    }
    assert(words[18 + shift] == "-i"@ && words[19 + shift] == device);
    assert(words[20 + shift] == "-pix_fmt"@ && words[21 + shift] == output_name(format));
    assert(words[22 + shift] == "-f"@ && words[23 + shift] == "rawvideo"@);
    assert(words[24 + shift] == "-"@);
}

/// A tail is the end of what there was: all of it, or as much as there is room for.
pub proof fn tails_are_the_end(bytes: Seq<u8>, capacity: nat)
    ensures
        exists|gone: Seq<u8>| #[trigger] (gone + last_bytes(bytes, capacity)) == bytes && (gone.len()
            == 0 || last_bytes(bytes, capacity).len() == capacity),
        last_bytes(bytes, capacity).len() <= capacity,
{
    let gone = if bytes.len() <= capacity {
        Seq::empty()
    } else {
        bytes.take(bytes.len() - capacity)
    };
    assert(gone + last_bytes(bytes, capacity) =~= bytes);
}

proof fn kept_in_order(order: Seq<usize>, keep: spec_fn(usize) -> bool)
    ensures
        forall|i: int|
            0 <= i < order.filter(keep).len() ==> keep(#[trigger] order.filter(keep)[i])
                && order.contains(order.filter(keep)[i]),
        forall|i: int|
            0 <= i < order.len() && keep(#[trigger] order[i]) ==> order.filter(keep).contains(
                order[i],
            ),
        forall|i: int, j: int|
            0 <= i < j < order.filter(keep).len() ==> exists|a: int, b: int|
                0 <= a < b < order.len() && #[trigger] order[a] == #[trigger] order.filter(keep)[i]
                    && #[trigger] order[b] == #[trigger] order.filter(keep)[j],
    decreases order.len(),
{
    reveal(Seq::filter);
    if order.len() > 0 {
        let before = order.drop_last();
        kept_in_order(before, keep);
        let kept = before.filter(keep);
        let all = order.filter(keep);
        assert(forall|i: int| 0 <= i < before.len() ==> before[i] == order[i]);
        assert(forall|i: int| 0 <= i < kept.len() ==> all[i] == kept[i]);
        assert forall|i: int| 0 <= i < all.len() implies keep(#[trigger] all[i]) && order.contains(
            all[i],
        ) by {
            if i < kept.len() {
                assert(all[i] == kept[i]);
                let k = before.index_of(kept[i]);
                assert(order[k] == kept[i]);
            } else {
                assert(all[i] == order.last());
            }
        }
        assert forall|i: int| 0 <= i < order.len() && keep(#[trigger] order[i]) implies all.contains(
            order[i],
        ) by {
            if i < before.len() {
                assert(before[i] == order[i]);
                let k = kept.index_of(order[i]);
                assert(all[k] == order[i]);
            } else {
                assert(all[kept.len() as int] == order[i]);
            }
        }
        assert forall|i: int, j: int| 0 <= i < j < all.len() implies exists|a: int, b: int|
            0 <= a < b < order.len() && #[trigger] order[a] == #[trigger] all[i]
                && #[trigger] order[b] == #[trigger] all[j] by {
            assert(all[i] == kept[i]);
            if j < kept.len() {
                assert(all[j] == kept[j]);
                let (a, b) = choose|a: int, b: int|
                    0 <= a < b < before.len() && #[trigger] before[a] == kept[i]
                        && #[trigger] before[b] == kept[j];
                assert(order[a] == all[i] && order[b] == all[j]);
            } else {
                let a = before.index_of(kept[i]);
                assert(order[a] == all[i] && order[order.len() - 1] == all[j]);
            }
        }
    }
}

/// Devices are probed in two rounds: those whose name speaks of infrared, all of them
/// and no others, and then every device; each round in the order of the names.
pub proof fn infrared_devices_are_probed_first(names: Seq<String>, probes: Seq<usize>) -> (first: int)
    requires
        probes_infrared_first(names, probes),
    ensures
        0 <= first,
        probes.len() == first + names.len(),
        forall|i: int|
            0 <= i < first ==> (#[trigger] probes[i]) < names.len() && is_infrared(
                names[probes[i] as int]@,
            ),
        forall|device: int|
            0 <= device < names.len() && is_infrared((#[trigger] names[device])@)
                ==> probes.take(first).contains(device as usize),
        forall|device: int|
            0 <= device < names.len() ==> #[trigger] probes.skip(first).contains(device as usize),
        forall|i: int, j: int|
            0 <= i < j < first || first <= i < j < probes.len() ==> key_less(
                name_keys(names),
                #[trigger] probes[i] as int,
                #[trigger] probes[j] as int,
            ),
{
    let keys = name_keys(names);
    let less = |a: int, b: int| key_less(keys, a, b);
    let keep = |index: usize| is_infrared(names[index as int]@);
    let order = choose|order: Seq<usize>|
        #[trigger] is_name_order(names, order) && probes == order.filter(
            |index: usize| is_infrared(names[index as int]@),
        ) + order;
    key_less_is_strict_total(keys);
    crate::order::orders_are_complete(order, names.len(), less);
    crate::order::orders_are_bounded(order, names.len(), less);
    kept_in_order(order, keep);
    let kept = order.filter(keep);
    let first = kept.len() as int;
    assert(probes == kept + order);
    assert(probes.take(first) =~= kept);
    assert(probes.skip(first) =~= order);
    assert forall|i: int| 0 <= i < first implies (#[trigger] probes[i]) < names.len() && is_infrared(
        names[probes[i] as int]@,
    ) by {
        assert(probes[i] == kept[i]);
        assert(keep(kept[i]));
        let k = order.index_of(kept[i]);
        assert(order[k] == kept[i]);
    }
    assert forall|device: int|
        0 <= device < names.len() && is_infrared((#[trigger] names[device])@) implies probes.take(
        first,
    ).contains(device as usize) by {
        assert(order.contains(device as usize));
        let k = order.index_of(device as usize);
        assert(keep(order[k]));
    }
    assert forall|i: int, j: int|
        0 <= i < j < first || first <= i < j < probes.len() implies key_less(
        keys,
        #[trigger] probes[i] as int,
        #[trigger] probes[j] as int,
    ) by {
        if j < first {
            assert(probes[i] == kept[i] && probes[j] == kept[j]);
            let (a, b) = choose|a: int, b: int|
                0 <= a < b < order.len() && #[trigger] order[a] == kept[i] && #[trigger] order[b]
                    == kept[j];
            assert(less(order[a] as int, order[b] as int));
        } else {
            assert(probes[i] == order[i - first] && probes[j] == order[j - first]);
            assert(less(order[i - first] as int, order[j - first] as int));
        }
    }
    first
}


/// Devices are asked for compressed pictures first, then for colour and then for gray.
pub proof fn formats_are_preferred_in_turn(attempt: usize)
    ensures
        preferred(attempt) is Some <==> attempt < 3,
        attempt == 0 ==> fourcc_format(preferred(attempt)->0) == Some(CaptureFormat::Mjpeg),
        attempt == 1 ==> fourcc_format(preferred(attempt)->0) == Some(CaptureFormat::Yuyv),
        attempt == 2 ==> fourcc_format(preferred(attempt)->0) == Some(CaptureFormat::Grey),
{
    let gray = seq![71u8, 82u8, 69u8, 89u8];
    let pairs = seq![89u8, 85u8, 89u8, 86u8];
    let compressed = seq![77u8, 74u8, 80u8, 71u8];
    assert(gray[0] == 71 && pairs[0] == 89 && compressed[0] == 77);
}

/// A device is taken for an infrared one exactly where its name says so, in any case of
/// letters.
pub proof fn infrared_devices_say_so(name: Seq<char>)
    ensures
        is_infrared(name) <==> contains(
            encode_utf8(lowercase(name)),
            encode_utf8("infrared"@),
        ) || contains(encode_utf8(lowercase(name)), encode_utf8("ir"@)),
        is_infrared(lowercase(name)) <==> is_infrared(name),
{
    assert(lowercase(lowercase(name)) =~= lowercase(name));
}


/// A timed read is over exactly where all of it was received, and waits until then.
pub proof fn timed_reads_wait_for_the_rest(read: TimedRead)
    requires
        read.wf(),
    ensures
        read.received == read.length ==> read.waiting() == TimedReadStep::Finished(
            Ok::<(), TimedReadFailure>(()),
        ),
        read.received < read.length ==> read.waiting() == TimedReadStep::Perform(
            TimedReadAction::Wait,
        ),
{
}

} // verus!
