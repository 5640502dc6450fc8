//! What becomes of a camera's buffers, and in what order its backends are used.
use howy_daemon::capture::{
    backend_start_message, camera_probe_order, capture_backend_once, capture_settings_plan,
    construct_fallback_after_release, exposure_controls, ffmpeg_args, ffmpeg_frame_size,
    frame_ended_message, frame_read_message, frame_timeout_message, poll_timeout,
    preferred_fourcc, publish_message, read_exact_until, requested_dimensions,
    start_backend_with, take_latest_message, wait_failure, with_stderr_tail,
    after_format_attempt, BackendCapture, BackendEvent, BackendStartError, Camera, CameraProfile,
    CaptureFailure, CaptureMessage, ExposureControl, ExposurePlan, NegotiationStep,
    NotifyOutcome, StderrTail, TimedRead, TimedReadAction, TimedReadEvent, TimedReadFailure,
    TimedReadStep, WaitOutcome, WorkerAction, WorkerEvent, FFMPEG_STDERR_TAIL_BYTES,
    capture_worker_loop, decode_capture_message, capture_fallback_message,
};
use howy_daemon::frame::{
    CameraError, CaptureFormat, Colorspace, Frame, FrameFormat, NegotiatedFormat, Quantization,
    MAX_MAPPED_BUFFER_BYTES, MAX_MJPEG_DIMENSION, MAX_MJPEG_ENCODED_BYTES,
    MAX_NORMALIZED_FRAME_BYTES,
};
use howy_daemon::mjpeg::{
    check_mjpeg_header, decode_mjpeg, decoded_mjpeg_to_frame, rgb_to_bgr_in_place,
    validate_decoded_mjpeg_len, validate_mjpeg_dimensions, validate_mjpeg_encoded_len,
    validate_mjpeg_geometry, validate_mjpeg_header, validate_mjpeg_payload_len, DecodedImage,
};
use howy_daemon::raw::{
    capture_format_from_fourcc, checked_raw_payload_len, effective_stride, normalize_mmap_payload,
    validate_negotiated_format, yuyv_quantization, NormalizedMmapPayload, YuyvQuantization,
};
use image::ImageEncoder;
use std::cell::{Cell, RefCell};
use std::rc::Rc;

fn yuyv_to_bgr_bt601(y: u8, u: u8, v: u8, quantization: YuyvQuantization) -> [u8; 3] {
    let u = u as f32 - 128.0;
    let v = v as f32 - 128.0;
    let (y, r, g, b) = match quantization {
        YuyvQuantization::FullRange => {
            let y = y as f32;
            (y, 1.402 * v, -0.344 * u - 0.714 * v, 1.772 * u)
        }
        YuyvQuantization::LimitedRange => {
            let y = (255.0 / 219.0) * (y as f32 - 16.0);
            (
                y,
                1.596_027 * v,
                -0.391_762 * u - 0.812_968 * v,
                2.017_232 * u,
            )
        }
    };

    [
        (y + b).clamp(0.0, 255.0) as u8,
        (y + g).clamp(0.0, 255.0) as u8,
        (y + r).clamp(0.0, 255.0) as u8,
    ]
}

fn format(width: u32, height: u32, fourcc: &[u8; 4], stride: u32) -> NegotiatedFormat {
    NegotiatedFormat {
        width,
        height,
        fourcc: *fourcc,
        stride,
        size: stride.checked_mul(height).unwrap_or(u32::MAX),
        colorspace: Colorspace::Default,
        quantization: Quantization::Default,
    }
}

fn normalized_frame(mapped: &[u8], bytesused: u32, format: &NegotiatedFormat) -> Frame {
    match normalize_mmap_payload(mapped, bytesused, format, &yuyv_to_bgr_bt601).unwrap() {
        NormalizedMmapPayload::Frame(frame) => frame,
        NormalizedMmapPayload::Mjpeg(_) => panic!("expected normalized raw frame"),
    }
}

fn synthetic_jpeg(width: u32, height: u32) -> Vec<u8> {
    synthetic_rgb_jpeg(width, height, [42, 42, 42])
}

fn synthetic_rgb_jpeg(width: u32, height: u32, rgb: [u8; 3]) -> Vec<u8> {
    let pixel_count = usize::try_from(width.checked_mul(height).unwrap()).unwrap();
    let pixels = rgb.repeat(pixel_count);
    let mut encoded = Vec::new();
    image::codecs::jpeg::JpegEncoder::new_with_quality(&mut encoded, 90)
        .write_image(&pixels, width, height, image::ExtendedColorType::Rgb8)
        .unwrap();
    encoded
}

fn synthetic_gray_jpeg(width: u32, height: u32, gray: u8) -> Vec<u8> {
    let pixel_count = usize::try_from(width.checked_mul(height).unwrap()).unwrap();
    let pixels = vec![gray; pixel_count];
    let mut encoded = Vec::new();
    image::codecs::jpeg::JpegEncoder::new_with_quality(&mut encoded, 90)
        .write_image(&pixels, width, height, image::ExtendedColorType::L8)
        .unwrap();
    encoded
}

#[test]
fn normalizes_exact_grey_rows() {
    let format = format(3, 2, b"GREY", 3);
    let frame = normalized_frame(&[1, 2, 3, 4, 5, 6], 6, &format);

    assert_eq!(frame.data, [1, 2, 3, 4, 5, 6]);
    assert_eq!((frame.width, frame.height), (3, 2));
    assert_eq!(frame.format, FrameFormat::Gray);
}

#[test]
fn strips_grey_row_padding() {
    let format = format(2, 2, b"GREY", 4);
    let frame = normalized_frame(&[1, 2, 90, 91, 3, 4, 92, 93], 8, &format);

    assert_eq!(frame.data, [1, 2, 3, 4]);
}

#[test]
fn accepts_grey_payload_without_final_row_padding() {
    let format = format(2, 2, b"GREY", 4);
    let frame = normalized_frame(&[1, 2, 90, 91, 3, 4], 6, &format);

    assert_eq!(frame.data, [1, 2, 3, 4]);
}

#[test]
fn converts_full_range_yuyv_chroma_to_bgr() {
    let mut format = format(2, 1, b"YUYV", 4);
    format.quantization = Quantization::FullRange;
    let frame = normalized_frame(&[100, 90, 150, 240], 4, &format);

    assert_eq!(frame.data, [32, 33, 255, 82, 83, 255]);
    assert_eq!(frame.format, FrameFormat::Bgr);
}

#[test]
fn converts_limited_range_yuyv_chroma_to_bgr() {
    let mut format = format(2, 1, b"YUYV", 4);
    format.quantization = Quantization::LimitedRange;
    let frame = normalized_frame(&[100, 90, 150, 240], 4, &format);

    assert_eq!(frame.data, [21, 21, 255, 79, 79, 255]);
}

#[test]
fn converts_full_range_neutral_black_and_white() {
    let mut format = format(2, 1, b"YUYV", 4);
    format.quantization = Quantization::FullRange;
    let frame = normalized_frame(&[0, 128, 255, 128], 4, &format);

    assert_eq!(frame.data, [0, 0, 0, 255, 255, 255]);
}

#[test]
fn converts_limited_range_neutral_black_and_white() {
    let mut format = format(2, 1, b"YUYV", 4);
    format.quantization = Quantization::LimitedRange;
    let frame = normalized_frame(&[16, 128, 235, 128], 4, &format);

    assert_eq!(frame.data, [0, 0, 0, 255, 255, 255]);
}

#[test]
fn resolves_default_yuyv_quantization_from_colorspace() {
    let mut jpeg = format(2, 1, b"YUYV", 4);
    jpeg.colorspace = Colorspace::Jpeg;
    assert_eq!(yuyv_quantization(&jpeg), YuyvQuantization::FullRange);

    let mut webcam = format(2, 1, b"YUYV", 4);
    webcam.colorspace = Colorspace::Srgb;
    assert_eq!(yuyv_quantization(&webcam), YuyvQuantization::LimitedRange);

    let unspecified = format(2, 1, b"YUYV", 4);
    assert_eq!(
        yuyv_quantization(&unspecified),
        YuyvQuantization::LimitedRange
    );
}

#[test]
fn converts_yuyv_rows_without_reading_padding() {
    let mut format = format(2, 2, b"YUYV", 6);
    format.quantization = Quantization::FullRange;
    let frame = normalized_frame(
        &[100, 90, 150, 240, 1, 2, 50, 240, 200, 90, 3, 4],
        12,
        &format,
    );

    assert_eq!(
        frame.data,
        [32, 33, 255, 82, 83, 255, 248, 38, 0, 255, 188, 146]
    );
}

#[test]
fn accepts_yuyv_payload_without_final_row_padding() {
    let mut format = format(2, 2, b"YUYV", 6);
    format.quantization = Quantization::FullRange;
    let frame = normalized_frame(&[10, 128, 20, 128, 90, 91, 30, 128, 40, 128], 10, &format);

    assert_eq!(frame.data, [10, 10, 10, 20, 20, 20, 30, 30, 30, 40, 40, 40]);
}

#[test]
fn rejects_bytesused_larger_than_mapping() {
    let format = format(2, 1, b"GREY", 2);
    let error = normalize_mmap_payload(&[1, 2], 3, &format, &yuyv_to_bgr_bt601)
        .err()
        .expect("oversized bytesused should fail");

    assert!(error.message().contains("exceeds mapped buffer length"));
}

#[test]
fn rejects_empty_and_truncated_payloads() {
    let grey = format(2, 2, b"GREY", 2);
    assert!(normalize_mmap_payload(&[0; 4], 0, &grey, &yuyv_to_bgr_bt601).is_err());
    assert!(normalize_mmap_payload(&[1, 2, 3], 3, &grey, &yuyv_to_bgr_bt601).is_err());

    let yuyv = format(2, 2, b"YUYV", 4);
    assert!(normalize_mmap_payload(&[0; 7], 7, &yuyv, &yuyv_to_bgr_bt601).is_err());
}

#[test]
fn decodes_zero_and_short_raw_strides_as_tightly_packed() {
    let mut zero_stride = format(2, 2, b"GREY", 0);
    zero_stride.size = 4;
    let grey = normalized_frame(&[1, 2, 3, 4], 4, &zero_stride);
    assert_eq!(grey.data, [1, 2, 3, 4]);

    let mut short_stride = format(2, 1, b"YUYV", 3);
    short_stride.size = 4;
    short_stride.quantization = Quantization::FullRange;
    let yuyv = normalized_frame(&[100, 90, 150, 240], 4, &short_stride);
    assert_eq!(yuyv.data, [32, 33, 255, 82, 83, 255]);
}

#[test]
fn rejects_zero_dimensions() {
    let zero_width = format(0, 1, b"GREY", 1);
    assert!(normalize_mmap_payload(&[1], 1, &zero_width, &yuyv_to_bgr_bt601).is_err());

    let zero_height = format(2, 0, b"GREY", 2);
    assert!(normalize_mmap_payload(&[1, 2], 2, &zero_height, &yuyv_to_bgr_bt601).is_err());
}

#[test]
fn rejects_odd_width_yuyv() {
    let format = format(3, 1, b"YUYV", 6);
    assert!(normalize_mmap_payload(&[0; 6], 6, &format, &yuyv_to_bgr_bt601).is_err());
}

#[test]
fn rejects_output_over_daemon_limit_architecture_neutrally() {
    let width = u32::try_from(MAX_NORMALIZED_FRAME_BYTES + 1).unwrap();
    let format = format(width, 1, b"GREY", width);
    let error = normalize_mmap_payload(&[1], 1, &format, &yuyv_to_bgr_bt601)
        .err()
        .expect("oversized output should fail");

    assert!(error.message().contains("daemon limit"));
}

#[test]
fn validates_negotiated_resource_limits_before_mapping() {
    let mjpeg_without_size = format(640, 480, b"MJPG", 0);
    assert!(validate_negotiated_format(&mjpeg_without_size).is_err());

    let mut oversized_mjpeg = format(640, 480, b"MJPG", 0);
    oversized_mjpeg.size = u32::try_from(MAX_MAPPED_BUFFER_BYTES + 1).unwrap();
    assert!(validate_negotiated_format(&oversized_mjpeg).is_err());

    let mut undersized_raw = format(2, 2, b"GREY", 2);
    undersized_raw.size = 3;
    assert!(validate_negotiated_format(&undersized_raw).is_err());

    let eight_k_yuyv = format(7680, 4320, b"YUYV", 15_360);
    assert!(validate_negotiated_format(&eight_k_yuyv).is_ok());
}

#[test]
fn bounds_grey_eventual_bgr_expansion() {
    let eight_k_grey = format(7680, 4320, b"GREY", 7680);
    assert!(validate_negotiated_format(&eight_k_grey).is_ok());

    let width = u32::try_from(MAX_NORMALIZED_FRAME_BYTES / 3 + 1).unwrap();
    let expansion_too_large = format(width, 1, b"GREY", width);
    let error = validate_negotiated_format(&expansion_too_large)
        .expect_err("eventual GREY-to-BGR expansion should be bounded");
    assert!(error.message().contains("GREY BGR expansion"));
}

#[test]
fn validates_synthetic_mjpeg_header_dimensions() {
    let jpeg = synthetic_jpeg(2, 2);
    let size_image = u32::try_from(jpeg.len()).unwrap();

    assert_eq!(
        validate_mjpeg_header(&jpeg, size_image, 2, 2).unwrap(),
        (2, 2)
    );
}

#[test]
fn decodes_grayscale_mjpeg_as_gray() {
    let jpeg = synthetic_gray_jpeg(2, 2, 80);
    let mut format = format(2, 2, b"MJPG", 0);
    format.size = u32::try_from(jpeg.len()).unwrap();

    let frame = decode_mjpeg(&jpeg, &format).unwrap();
    assert_eq!((frame.width, frame.height), (2, 2));
    assert_eq!(frame.format, FrameFormat::Gray);
    assert_eq!(frame.data.len(), 4);
}

#[test]
fn decodes_rgb_mjpeg_as_bgr() {
    let jpeg = synthetic_rgb_jpeg(2, 2, [10, 60, 200]);
    let mut format = format(2, 2, b"MJPG", 0);
    format.size = u32::try_from(jpeg.len()).unwrap();

    let frame = decode_mjpeg(&jpeg, &format).unwrap();
    assert_eq!((frame.width, frame.height), (2, 2));
    assert_eq!(frame.format, FrameFormat::Bgr);
    assert_eq!(frame.data.len(), 12);
    for pixel in frame.data.chunks_exact(3) {
        assert!(pixel[0] > pixel[2], "expected BGR, got {pixel:?}");
    }
}

#[test]
fn swaps_rgb_to_bgr_exactly_once() {
    let mut pixels = [1, 2, 3, 4, 5, 6];
    rgb_to_bgr_in_place(&mut pixels);
    assert_eq!(pixels, [3, 2, 1, 6, 5, 4]);
}

#[test]
fn rejects_mjpeg_header_dimension_mismatch() {
    let jpeg = synthetic_jpeg(2, 2);
    let size_image = u32::try_from(jpeg.len()).unwrap();

    assert!(validate_mjpeg_header(&jpeg, size_image, 3, 2).is_err());
}

#[test]
fn rejects_malformed_mjpeg_header() {
    assert!(validate_mjpeg_header(b"not a jpeg", 10, 2, 2).is_err());
}

#[test]
fn rejects_malformed_and_truncated_mjpeg_decode() {
    let mut malformed_format = format(2, 2, b"MJPG", 0);
    malformed_format.size = 10;
    assert!(decode_mjpeg(b"not a jpeg", &malformed_format).is_err());

    let jpeg = synthetic_rgb_jpeg(2, 2, [10, 60, 200]);
    let truncated = &jpeg[..jpeg.len() / 2];
    let mut truncated_format = format(2, 2, b"MJPG", 0);
    truncated_format.size = u32::try_from(truncated.len()).unwrap();
    assert!(decode_mjpeg(truncated, &truncated_format).is_err());
}

#[test]
fn rejects_zero_and_oversized_mjpeg_dimensions_without_large_fixture() {
    assert!(validate_mjpeg_dimensions(0, 1, 0, 1).is_err());
    assert!(validate_mjpeg_dimensions(65_535, 65_535, 65_535, 65_535).is_err());
}

#[test]
fn enforces_mjpeg_decoder_envelope_without_allocating() {
    assert!(validate_mjpeg_encoded_len(MAX_MJPEG_ENCODED_BYTES).is_ok());
    assert!(validate_mjpeg_encoded_len(MAX_MJPEG_ENCODED_BYTES + 1).is_err());

    assert!(validate_mjpeg_geometry(4096, 2160).is_ok());
    assert!(validate_mjpeg_geometry(MAX_MJPEG_DIMENSION + 1, 1).is_err());
    assert!(validate_mjpeg_geometry(4096, 2161).is_err());
}

#[test]
fn rejects_mjpeg_payload_length_over_daemon_limit_without_allocating() {
    let payload_len = MAX_MAPPED_BUFFER_BYTES + 1;
    assert!(validate_mjpeg_payload_len(payload_len, u32::MAX).is_err());
}

#[test]
fn rejects_mjpeg_payload_larger_than_negotiated_sizeimage() {
    assert!(validate_mjpeg_payload_len(5, 4).is_err());
}

#[test]
fn rejects_unsupported_fourcc() {
    assert!(capture_format_from_fourcc(*b"RGB3").is_err());

    let format = format(1, 1, b"RGB3", 3);
    assert!(normalize_mmap_payload(&[0; 3], 3, &format, &yuyv_to_bgr_bt601).is_err());
}

#[test]
fn limits_mjpeg_to_bytesused() {
    let mut format = format(2, 1, b"MJPG", 0);
    format.size = 5;
    let mapped = [1, 2, 3, 99, 100];

    match normalize_mmap_payload(&mapped, 3, &format, &yuyv_to_bgr_bt601).unwrap() {
        NormalizedMmapPayload::Mjpeg(payload) => assert_eq!(payload, [1, 2, 3]),
        NormalizedMmapPayload::Frame(_) => panic!("expected MJPEG payload"),
    }
}

#[test]
fn startup_backend_order_is_v4l2_then_ffmpeg() {
    let order = RefCell::new(Vec::new());
    let selected = start_backend_with(
        || {
            order.borrow_mut().push("v4l2");
            Err("unavailable")
        },
        || {
            order.borrow_mut().push("ffmpeg");
            Ok("ffmpeg")
        },
    )
    .unwrap();

    assert_eq!(selected, "ffmpeg");
    assert_eq!(*order.borrow(), ["v4l2", "ffmpeg"]);
}

#[test]
fn successful_v4l2_start_does_not_try_ffmpeg() {
    let ffmpeg_called = Cell::new(false);
    let selected = start_backend_with(
        || Ok::<_, &str>("v4l2"),
        || {
            ffmpeg_called.set(true);
            Ok("ffmpeg")
        },
    )
    .unwrap();

    assert_eq!(selected, "v4l2");
    assert!(!ffmpeg_called.get());
}

#[test]
fn releases_failed_backend_before_constructing_fallback() {
    struct DropProbe(Rc<Cell<bool>>);
    impl Drop for DropProbe {
        fn drop(&mut self) {
            self.0.set(true);
        }
    }

    let dropped = Rc::new(Cell::new(false));
    let mut failed = Some(DropProbe(Rc::clone(&dropped)));
    let fallback = construct_fallback_after_release(&mut failed, || {
        assert!(dropped.get());
        Ok::<_, &str>("ffmpeg")
    })
    .unwrap();

    assert_eq!(fallback, "ffmpeg");
    assert!(failed.is_none());
}

#[test]
fn ffmpeg_args_omit_default_fps_and_include_positive_fps() {
    let default_args = ffmpeg_args("/dev/video0", 640, 480, CaptureFormat::Grey, -1);
    assert!(!default_args.iter().any(|arg| arg == "-framerate"));

    let positive_args = ffmpeg_args("/dev/video0", 640, 480, CaptureFormat::Grey, 25);
    let fps_index = positive_args
        .iter()
        .position(|arg| arg == "-framerate")
        .unwrap();
    assert_eq!(
        positive_args.get(fps_index + 1).map(String::as_str),
        Some("25")
    );
}

#[test]
fn rejects_unsupported_decoded_mjpeg_color_type() {
    assert!(decoded_mjpeg_to_frame(
        DecodedImage::Other {
            color: "Rgba8".to_string(),
        },
        1,
        1,
    )
    .is_err());
}

#[test]
fn production_fallback_step_drops_failed_backend_before_construction() {
    struct FakeBackend {
        fail: bool,
        can_fallback: bool,
        dropped: Rc<Cell<bool>>,
    }
    impl BackendCapture for FakeBackend {
        type Error = &'static str;

        fn next_frame(&mut self) -> Result<Frame, &'static str> {
            if self.fail {
                Err("capture failed")
            } else {
                Ok(Frame {
                    data: vec![1],
                    width: 1,
                    height: 1,
                    format: FrameFormat::Gray,
                })
            }
        }

        fn supports_fallback(&self) -> bool {
            self.can_fallback
        }
    }
    impl Drop for FakeBackend {
        fn drop(&mut self) {
            self.dropped.set(true);
        }
    }

    let dropped = Rc::new(Cell::new(false));
    let fallback_dropped = Rc::new(Cell::new(false));
    let mut backend = Some(FakeBackend {
        fail: true,
        can_fallback: true,
        dropped: Rc::clone(&dropped),
    });
    let event = capture_backend_once(&mut backend, || {
        assert!(dropped.get(), "failed owner must be dropped first");
        Ok(FakeBackend {
            fail: false,
            can_fallback: false,
            dropped: Rc::clone(&fallback_dropped),
        })
    })
    .unwrap();

    assert!(matches!(event, BackendEvent::FellBack(_)));
    assert!(backend.is_some());

    let event = capture_backend_once(&mut backend, || Err("not reached")).unwrap();
    assert!(matches!(event, BackendEvent::Frame(frame) if frame.data == [1]));

    let mut final_backend = Some(FakeBackend {
        fail: true,
        can_fallback: false,
        dropped: Rc::new(Cell::new(false)),
    });
    assert!(matches!(
        capture_backend_once(&mut final_backend, || Err("not reached")),
        Err(CaptureFailure::Capture("capture failed"))
    ));

    let mut doomed = Some(FakeBackend {
        fail: true,
        can_fallback: true,
        dropped: Rc::new(Cell::new(false)),
    });
    assert!(matches!(
        capture_backend_once(&mut doomed, || Err("no ffmpeg")),
        Err(CaptureFailure::Fallback {
            capture: "capture failed",
            fallback: "no ffmpeg",
        })
    ));
    assert!(doomed.is_none());
    assert!(matches!(
        capture_backend_once(&mut doomed, || Err("no ffmpeg")),
        Err(CaptureFailure::MissingBackend)
    ));
}

#[test]
fn builds_v4l2_fps_and_exposure_control_plans() {
    let manual = capture_settings_plan(25, 123);
    assert_eq!(manual.fps, Some(25));
    assert_eq!(manual.exposure, ExposurePlan::Manual(123));
    let controls = exposure_controls(manual.exposure);
    assert_eq!(controls.len(), 2);
    assert_eq!(controls[0], ExposureControl::AutoManual);
    assert_eq!(controls[1], ExposureControl::Absolute(123));

    let auto = capture_settings_plan(-1, -1);
    assert_eq!(auto.fps, None);
    let controls = exposure_controls(auto.exposure);
    assert_eq!(controls.len(), 1);
    assert_eq!(controls[0], ExposureControl::AutoAperturePriority);
}

/// Runs a timed read on a source of bytes, with `ready` in place of the poll.
fn timed_read(
    source: &mut Vec<u8>,
    buffer: &mut [u8],
    mut ready: impl FnMut() -> Result<bool, ()>,
) -> Result<(), TimedReadFailure> {
    let (mut read, mut step) = TimedRead::begin(buffer.len());
    loop {
        let event = match step {
            TimedReadStep::Finished(result) => return result,
            TimedReadStep::Perform(TimedReadAction::Wait) => match ready() {
                Ok(true) => TimedReadEvent::Readable,
                Ok(false) => TimedReadEvent::Expired,
                Err(()) => TimedReadEvent::Interrupted,
            },
            TimedReadStep::Perform(TimedReadAction::Read { from }) => {
                let count = source.len().min(buffer.len() - from);
                for (place, byte) in buffer[from..].iter_mut().zip(source.drain(..count)) {
                    *place = byte;
                }
                TimedReadEvent::Count(count)
            }
        };
        step = read_exact_until(&mut read, event);
    }
}

#[test]
fn timed_reader_reports_partial_and_timeout_with_absolute_deadline() {
    let mut partial = vec![1_u8];
    let mut frame = [0_u8; 2];
    let error = timed_read(&mut partial, &mut frame, || Ok(true)).unwrap_err();
    assert_eq!(error, TimedReadFailure::Eof { received: 1 });

    let mut unread = vec![1_u8, 2];
    let error = timed_read(&mut unread, &mut frame, || Ok(false)).unwrap_err();
    assert_eq!(error, TimedReadFailure::Timeout { received: 0 });

    let calls = Cell::new(0);
    let error = timed_read(&mut unread, &mut frame, || {
        calls.set(calls.get() + 1);
        if calls.get() == 1 {
            Err(())
        } else {
            Ok(false)
        }
    })
    .unwrap_err();
    assert_eq!(calls.get(), 2);
    assert_eq!(error, TimedReadFailure::Timeout { received: 0 });

    timed_read(&mut unread, &mut frame, || Ok(true)).unwrap();
    assert_eq!(frame, [1, 2]);

    let (mut read, _) = TimedRead::begin(2);
    let step = read_exact_until(
        &mut read,
        TimedReadEvent::Failed {
            kind: "Other".to_string(),
            message: "gone".to_string(),
        },
    );
    assert!(matches!(
        step,
        TimedReadStep::Finished(Err(TimedReadFailure::Io { received: 0, .. }))
    ));
}

#[test]
fn stderr_drainer_caps_tail_under_flood() {
    let flood = vec![b'x'; FFMPEG_STDERR_TAIL_BYTES * 4];
    let mut drained = StderrTail::new(FFMPEG_STDERR_TAIL_BYTES);
    for piece in flood.chunks(4096) {
        drained.push(piece);
    }
    assert_eq!(drained.snapshot().len(), FFMPEG_STDERR_TAIL_BYTES);

    let mut tail = StderrTail::new(8);
    tail.push(b"abc");
    tail.push(b"0123456789");
    assert_eq!(tail.snapshot(), "23456789");
}

#[test]
fn stderr_tails_replace_what_is_no_text() {
    let mut tail = StderrTail::new(8);
    tail.push(b"a\xffb");
    assert_eq!(tail.snapshot(), "a\u{fffd}b");
}

#[test]
fn ffmpeg_error_texts_show_progress_and_stderr() {
    assert_eq!(
        with_stderr_tail(
            &frame_ended_message(Some("exit status: 7"), "GREY", 0, 1),
            "early-device-busy"
        ),
        "FFmpeg exited exit status: 7 before a complete GREY frame was read (0/1 bytes); \
         FFmpeg stderr tail: early-device-busy"
    );
    assert_eq!(
        with_stderr_tail(&frame_ended_message(None, "GREY", 1, 2), ""),
        "FFmpeg closed its output before a complete GREY frame was read (1/2 bytes)"
    );
    assert_eq!(
        frame_timeout_message(20, "test", 0, 1),
        "timed out after 20ms waiting for test frame from FFmpeg (0/1 bytes)"
    );
    assert_eq!(
        frame_read_message("test", 3, 10, "BrokenPipe", "broken pipe"),
        "failed reading test frame from FFmpeg (3/10 bytes): BrokenPipe: broken pipe"
    );
    assert_eq!(poll_timeout(0), 1);
    assert_eq!(poll_timeout(u64::MAX), i32::MAX);
}

#[test]
fn failed_starts_report_both_backends() {
    let started: Result<(), _> = start_backend_with(|| Err("busy"), || Err("missing"));
    let failure = started.unwrap_err();
    assert_eq!(
        failure,
        BackendStartError {
            v4l2: "busy",
            ffmpeg: "missing",
        }
    );
    assert_eq!(
        backend_start_message(failure.v4l2, failure.ffmpeg),
        "V4L2 mmap backend failed: busy; optional FFmpeg fallback failed: missing"
    );
    assert_eq!(
        capture_fallback_message("stalled", "missing"),
        "V4L2 capture failed: stalled; optional FFmpeg fallback failed: missing"
    );
}

#[test]
fn only_the_latest_message_is_kept() {
    let mut slot = None;
    assert!(take_latest_message(&mut slot).is_none());
    assert!(publish_message(
        &mut slot,
        NotifyOutcome::Sent,
        CaptureMessage::Error("first".to_string()),
    ));
    assert!(publish_message(
        &mut slot,
        NotifyOutcome::Full,
        CaptureMessage::Error("second".to_string()),
    ));
    let message = take_latest_message(&mut slot).unwrap();
    assert_eq!(decode_capture_message(message).unwrap_err(), "second");
    assert!(slot.is_none());
    assert!(!publish_message(
        &mut slot,
        NotifyOutcome::Disconnected,
        CaptureMessage::Error("third".to_string()),
    ));
    assert_eq!(wait_failure(WaitOutcome::Notified), None);
    assert_eq!(
        wait_failure(WaitOutcome::TimedOut { seconds: 5 }).unwrap(),
        "timed out waiting for camera frame after 5s"
    );
    assert_eq!(
        wait_failure(WaitOutcome::Disconnected).unwrap(),
        "camera capture worker stopped unexpectedly"
    );
}

#[test]
fn capture_workers_poll_before_every_frame() {
    assert!(matches!(
        capture_worker_loop(WorkerEvent::BackendStarted),
        WorkerAction::PollStop
    ));
    assert!(matches!(
        capture_worker_loop(WorkerEvent::FellBack),
        WorkerAction::PollStop
    ));
    assert!(matches!(
        capture_worker_loop(WorkerEvent::StopPolled { stop: false }),
        WorkerAction::Capture
    ));
    assert!(matches!(
        capture_worker_loop(WorkerEvent::StopPolled { stop: true }),
        WorkerAction::Stop
    ));
    assert!(matches!(
        capture_worker_loop(WorkerEvent::FramePublished {
            receiver_alive: false
        }),
        WorkerAction::Stop
    ));
    let failed = capture_worker_loop(WorkerEvent::CaptureFailed {
        reason: "gone".to_string(),
    });
    assert!(matches!(
        failed,
        WorkerAction::PublishAndStop { message } if message == "camera backend capture failed: gone"
    ));
    let refused = capture_worker_loop(WorkerEvent::BackendFailed {
        reason: "busy".to_string(),
    });
    assert!(matches!(
        refused,
        WorkerAction::PublishAndStop { message } if message == "failed to start camera backend: busy"
    ));
}

#[test]
fn infrared_devices_are_probed_first() {
    let names: Vec<String> = ["USB Cam", "Integrated IR Camera", "Front infrared", "Back"]
        .iter()
        .map(|name| name.to_string())
        .collect();
    assert_eq!(camera_probe_order(&names), [2, 1, 3, 2, 1, 0]);
}

#[test]
fn formats_are_negotiated_in_order() {
    assert_eq!(preferred_fourcc(0), Some(*b"MJPG"));
    assert_eq!(preferred_fourcc(1), Some(*b"YUYV"));
    assert_eq!(preferred_fourcc(2), Some(*b"GREY"));
    assert_eq!(preferred_fourcc(3), None);
    assert_eq!(
        after_format_attempt(0, Some(*b"GREY")),
        NegotiationStep::Accept(CaptureFormat::Grey)
    );
    assert_eq!(
        after_format_attempt(0, Some(*b"RGB3")),
        NegotiationStep::Attempt(1)
    );
    assert_eq!(after_format_attempt(2, None), NegotiationStep::UseCurrent);
    assert_eq!(requested_dimensions(-1, 720), (640, 720));
    assert_eq!(requested_dimensions(800, 0), (800, 480));
}

#[test]
fn fallback_frames_have_exact_sizes() {
    assert_eq!(
        ffmpeg_frame_size(640, 480, CaptureFormat::Grey).unwrap(),
        307_200
    );
    assert_eq!(
        ffmpeg_frame_size(640, 480, CaptureFormat::Yuyv).unwrap(),
        921_600
    );
    assert_eq!(
        ffmpeg_frame_size(7000, 7000, CaptureFormat::Grey)
            .unwrap_err()
            .message(),
        "V4L2 FFmpeg GREY BGR expansion output exceeds the 134217728-byte daemon limit: \
         147000000 bytes"
    );
}

#[test]
fn profiles_keep_what_was_negotiated() {
    let profile = CameraProfile::negotiated(
        "/dev/video2".to_string(),
        &format(640, 480, b"GREY", 640),
        CaptureFormat::Grey,
        30,
        -1,
    );
    assert_eq!(profile.device_path, "/dev/video2");
    assert_eq!((profile.width, profile.height), (640, 480));
    let camera = Camera::from_profile(&profile);
    assert_eq!((camera.width(), camera.height()), (640, 480));
}

#[test]
fn gray_frames_expand_to_three_channels() {
    let gray = Frame {
        data: vec![1, 2],
        width: 2,
        height: 1,
        format: FrameFormat::Gray,
    };
    let (data, width, height) = gray.to_bgr_data();
    assert_eq!(&data[..], [1, 1, 1, 2, 2, 2]);
    assert_eq!((width, height), (2, 1));

    let color = Frame {
        data: vec![1, 2, 3],
        width: 1,
        height: 1,
        format: FrameFormat::Bgr,
    };
    assert_eq!(&color.to_bgr_data().0[..], [1, 2, 3]);
}

#[test]
fn swapping_colors_twice_restores_them() {
    let mut pixels = [9, 8, 7, 6, 5, 4, 3];
    rgb_to_bgr_in_place(&mut pixels);
    assert_eq!(pixels, [7, 8, 9, 4, 5, 6, 3]);
    rgb_to_bgr_in_place(&mut pixels);
    assert_eq!(pixels, [9, 8, 7, 6, 5, 4, 3]);
}

#[test]
fn accepted_formats_unpack_whole_buffers() {
    for (fourcc, stride) in [(b"GREY", 4), (b"YUYV", 8)] {
        let negotiated = format(4, 2, fourcc, stride);
        validate_negotiated_format(&negotiated).unwrap();
        let mapped = vec![128_u8; negotiated.size as usize];
        normalize_mmap_payload(&mapped, negotiated.size, &negotiated, &yuyv_to_bgr_bt601).unwrap();
    }
}

#[test]
fn raw_payloads_have_exact_lengths() {
    assert_eq!(checked_raw_payload_len(2, 6, 4, "YUYV").unwrap(), 10);
    assert_eq!(
        checked_raw_payload_len(0, 6, 4, "YUYV").unwrap_err(),
        CameraError::ZeroHeight
    );
    assert_eq!(effective_stride(3, 4), 4);
    assert_eq!(effective_stride(6, 4), 6);
}

#[test]
fn every_camera_error_can_come() {
    let grey = format(2, 2, b"GREY", 2);
    let cases: Vec<(CameraError, &str)> = vec![
        (
            normalize_mmap_payload(&[0; 4], 0, &grey, &yuyv_to_bgr_bt601).unwrap_err(),
            "V4L2 mmap: frame payload is empty",
        ),
        (
            normalize_mmap_payload(&[1, 2, 3], 3, &grey, &yuyv_to_bgr_bt601).unwrap_err(),
            "V4L2 GREY payload is truncated: bytesused 3, need at least 4 (sizeimage 4)",
        ),
        (
            capture_format_from_fourcc(*b"RGB3").unwrap_err(),
            "unsupported V4L2 FourCC: RGB3",
        ),
        (
            normalize_mmap_payload(&[0; 6], 6, &format(3, 1, b"YUYV", 6), &yuyv_to_bgr_bt601)
                .unwrap_err(),
            "V4L2 YUYV width 3 must be even",
        ),
    ];
    for (error, message) in cases {
        assert_eq!(error.message(), message);
    }
    assert_eq!(
        validate_mjpeg_payload_len(5, 4),
        Err(CameraError::ExceedsSizeImage {
            length: 5,
            size_image: 4,
        })
    );
    assert_eq!(
        validate_mjpeg_geometry(4096, 2161),
        Err(CameraError::PixelLimit { pixels: 8_851_456 })
    );
    assert_eq!(
        validate_mjpeg_geometry(4097, 1),
        Err(CameraError::DimensionLimit {
            width: 4097,
            height: 1,
        })
    );
    assert_eq!(
        validate_mjpeg_dimensions(2, 2, 3, 2),
        Err(CameraError::DimensionMismatch {
            width: 2,
            height: 2,
            negotiated_width: 3,
            negotiated_height: 2,
        })
    );
    assert_eq!(check_mjpeg_header(None, 2, 2), Err(CameraError::MalformedHeader));
    assert_eq!(
        validate_mjpeg_header(b"not a jpeg", 10, 2, 2),
        Err(CameraError::MalformedHeader)
    );
    assert_eq!(
        validate_decoded_mjpeg_len(11, 12),
        Err(CameraError::DecodedLength {
            actual: 11,
            expected: 12,
        })
    );
    assert!(matches!(
        decode_mjpeg(b"", &format(2, 2, b"MJPG", 1)).unwrap_err(),
        CameraError::EmptyEncoded | CameraError::EmptyPayload
    ));
}
