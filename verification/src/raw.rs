//! Raw capture buffers: size rules, and unpacking into tight frames.
use crate::frame::{
    CameraError, CaptureFormat, Colorspace, Frame, FrameFormat, NegotiatedFormat, Quantization,
    MAX_MAPPED_BUFFER_BYTES, MAX_NORMALIZED_FRAME_BYTES,
};
use crate::mjpeg::{
    mjpeg_geometry_error, mjpeg_payload_error, validate_mjpeg_encoded_len, validate_mjpeg_geometry,
    validate_mjpeg_payload_len,
};
use vstd::arithmetic::div_mod::*;
use vstd::arithmetic::mul::*;
use vstd::prelude::*;

verus! {

pub open spec fn dimension_error(width: u32, height: u32, name: &'static str) -> Option<
    CameraError,
> {
    if width == 0 || height == 0 {
        Some(CameraError::ZeroDimensions { name, width, height })
    } else {
        None
    }
}

pub fn validate_dimensions(width: u32, height: u32, name: &'static str) -> (result: Result<
    (),
    CameraError,
>)
    ensures
        result == (match dimension_error(width, height, name) {
            Some(error) => Err(error),
            None => Ok(()),
        }),
{
    if width == 0 || height == 0 {
        return Err(CameraError::ZeroDimensions { name, width, height });
    }
    Ok(())
}

/// The length of a tight frame, or why there can be none: the pixel count and
/// the length must be representable and the length within the daemon's limit.
pub open spec fn frame_len(
    width: u32,
    height: u32,
    bytes_per_pixel: usize,
    name: &'static str,
) -> Result<usize, CameraError> {
    let pixels = width * height;
    let length = pixels * bytes_per_pixel;
    if pixels > usize::MAX || length > usize::MAX {
        Err(CameraError::OutputOverflow { name })
    } else if length > MAX_NORMALIZED_FRAME_BYTES {
        Err(CameraError::OutputLimit { name, length: length as usize })
    } else {
        Ok(length as usize)
    }
}

pub fn checked_frame_len(
    width: u32,
    height: u32,
    bytes_per_pixel: usize,
    name: &'static str,
) -> (length: Result<usize, CameraError>)
    ensures
        length == frame_len(width, height, bytes_per_pixel, name),
{
    let columns: usize = width as usize;
    let rows: usize = height as usize;
    match columns.checked_mul(rows) {
        None => Err(CameraError::OutputOverflow { name }),
        Some(pixels) => match pixels.checked_mul(bytes_per_pixel) {
            None => Err(CameraError::OutputOverflow { name }),
            Some(length) => {
                if length > MAX_NORMALIZED_FRAME_BYTES {
                    Err(CameraError::OutputLimit { name, length })
                } else {
                    Ok(length)
                }
            },
        },
    }
}

/// Rows are at least as far apart as they are long: a smaller reported stride
/// means tight rows.
pub open spec fn stride_of(reported_stride: u32, active_row_bytes: usize) -> usize {
    if reported_stride > active_row_bytes {
        reported_stride as usize
    } else {
        active_row_bytes
    }
}

pub fn effective_stride(reported_stride: u32, active_row_bytes: usize) -> (stride: usize)
    ensures
        stride == stride_of(reported_stride, active_row_bytes),
{
    let reported: usize = reported_stride as usize;
    if reported > active_row_bytes {
        reported
    } else {
        active_row_bytes
    }
}

/// What a raw frame needs of its buffer: all rows but the last with their
/// padding, and the last one without.
pub open spec fn payload_len(
    height: usize,
    stride: usize,
    active_row_bytes: usize,
    name: &'static str,
) -> Result<usize, CameraError> {
    let offset = (height - 1) * stride;
    let required = offset + active_row_bytes;
    if height == 0 {
        Err(CameraError::ZeroHeight)
    } else if required > usize::MAX {
        Err(CameraError::PayloadOverflow { name })
    } else if required > MAX_MAPPED_BUFFER_BYTES {
        Err(CameraError::PayloadLimit { name, required: required as usize })
    } else {
        Ok(required as usize)
    }
}

pub fn checked_raw_payload_len(
    height: usize,
    stride: usize,
    active_row_bytes: usize,
    name: &'static str,
) -> (required: Result<usize, CameraError>)
    ensures
        required == payload_len(height, stride, active_row_bytes, name),
{
    if height == 0 {
        return Err(CameraError::ZeroHeight);
    }
    match (height - 1).checked_mul(stride) {
        None => Err(CameraError::PayloadOverflow { name }),
        Some(offset) => match offset.checked_add(active_row_bytes) {
            None => Err(CameraError::PayloadOverflow { name }),
            Some(required) => {
                if required > MAX_MAPPED_BUFFER_BYTES {
                    Err(CameraError::PayloadLimit { name, required })
                } else {
                    Ok(required)
                }
            },
        },
    }
}

pub open spec fn raw_payload_error(
    used: usize,
    height: usize,
    stride: usize,
    active_row_bytes: usize,
    size_image: u32,
    name: &'static str,
) -> Option<CameraError> {
    match payload_len(height, stride, active_row_bytes, name) {
        Err(error) => Some(error),
        Ok(required) => if used < required {
            Some(CameraError::Truncated { name, used, required, negotiated: size_image })
        } else {
            None
        },
    }
}

pub fn validate_raw_payload(
    payload: &[u8],
    height: usize,
    stride: usize,
    active_row_bytes: usize,
    size_image: u32,
    name: &'static str,
) -> (result: Result<(), CameraError>)
    ensures
        result == (match raw_payload_error(
            payload@.len() as usize,
            height,
            stride,
            active_row_bytes,
            size_image,
            name,
        ) {
            Some(error) => Err(error),
            None => Ok(()),
        }),
{
    match checked_raw_payload_len(height, stride, active_row_bytes, name) {
        Err(error) => Err(error),
        Ok(required) => {
            if payload.len() < required {
                return Err(
                    CameraError::Truncated {
                        name,
                        used: payload.len(),
                        required,
                        negotiated: size_image,
                    },
                );
            }
            Ok(())
        },
    }
}

/// The layouts by their four-character codes.
pub open spec fn fourcc_format(fourcc: Seq<u8>) -> Option<CaptureFormat> {
    if fourcc == seq![77u8, 74u8, 80u8, 71u8] {
        Some(CaptureFormat::Mjpeg)
    } else if fourcc == seq![89u8, 85u8, 89u8, 86u8] {
        Some(CaptureFormat::Yuyv)
    } else if fourcc == seq![71u8, 82u8, 69u8, 89u8] {
        Some(CaptureFormat::Grey)
    } else {
        None
    }
}

fn fourcc_is(fourcc: [u8; 4], a: u8, b: u8, c: u8, d: u8) -> (same: bool)
    ensures
        same == (fourcc@ == seq![a, b, c, d]),
{
    if fourcc[0] == a && fourcc[1] == b && fourcc[2] == c && fourcc[3] == d {
        assert(fourcc@ =~= seq![a, b, c, d]);
        true
    } else {
        assert(seq![a, b, c, d][0] == a && seq![a, b, c, d][1] == b && seq![a, b, c, d][2] == c
            && seq![a, b, c, d][3] == d);
        false
    }
}

pub fn capture_format_from_fourcc(fourcc: [u8; 4]) -> (format: Result<CaptureFormat, CameraError>)
    ensures
        format == (match fourcc_format(fourcc@) {
            Some(known) => Ok(known),
            None => Err(CameraError::UnsupportedFourcc { fourcc }),
        }),
{
    if fourcc_is(fourcc, 77, 74, 80, 71) {
        Ok(CaptureFormat::Mjpeg)
    } else if fourcc_is(fourcc, 89, 85, 89, 86) {
        Ok(CaptureFormat::Yuyv)
    } else if fourcc_is(fourcc, 71, 82, 69, 89) {
        Ok(CaptureFormat::Grey)
    } else {
        Err(CameraError::UnsupportedFourcc { fourcc })
    }
}

#[derive(Clone, Copy, Debug, PartialEq, Eq, Structural)]
pub enum YuyvQuantization {
    FullRange,
    LimitedRange,
}

/// The range of the samples. Where the device leaves it to the colorspace, JPEG
/// is full range and the other colorspaces are limited range.
pub open spec fn resolved_quantization(format: NegotiatedFormat) -> YuyvQuantization {
    match format.quantization {
        Quantization::FullRange => YuyvQuantization::FullRange,
        Quantization::LimitedRange => YuyvQuantization::LimitedRange,
        Quantization::Default => if format.colorspace == Colorspace::Jpeg {
            YuyvQuantization::FullRange
        } else {
            YuyvQuantization::LimitedRange
        },
    }
}

pub fn yuyv_quantization(format: &NegotiatedFormat) -> (quantization: YuyvQuantization)
    ensures
        quantization == resolved_quantization(*format),
{
    match format.quantization {
        Quantization::FullRange => YuyvQuantization::FullRange,
        Quantization::LimitedRange => YuyvQuantization::LimitedRange,
        Quantization::Default => {
            if format.colorspace == Colorspace::Jpeg {
                YuyvQuantization::FullRange
            } else {
                YuyvQuantization::LimitedRange
            }
        },
    }
}

/// Why a gray payload cannot be unpacked.
pub open spec fn grey_error(used: usize, format: NegotiatedFormat) -> Option<CameraError> {
    let width = format.width as usize;
    let height = format.height as usize;
    let stride = stride_of(format.stride, width);
    match dimension_error(format.width, format.height, "GREY") {
        Some(error) => Some(error),
        None => match frame_len(format.width, format.height, 1, "GREY") {
            Err(error) => Some(error),
            Ok(_) => raw_payload_error(used, height, stride, width, format.size, "GREY"),
        },
    }
}

/// The gray values of the rows, without the padding between them.
pub open spec fn grey_pixels(payload: Seq<u8>, format: NegotiatedFormat) -> Seq<u8> {
    let width = format.width as int;
    let stride = stride_of(format.stride, format.width as usize) as int;
    Seq::new(
        (width * format.height) as nat,
        |i: int| payload[(i / width) * stride + i % width],
    )
}

/// Where row `row`, column `column` of a tight frame stands, and that its row
/// lies inside the payload.
proof fn row_bounds(row: int, rows: int, stride: int, active: int, required: int, used: int)
    requires
        0 <= row < rows,
        0 <= stride,
        0 <= active,
        required == (rows - 1) * stride + active,
        required <= used,
    ensures
        0 <= row * stride,
        row * stride + active <= used,
{
    assert(row * stride <= (rows - 1) * stride) by (nonlinear_arith)
        requires
            0 <= row <= rows - 1,
            0 <= stride,
    ;
    assert(0 <= row * stride) by (nonlinear_arith)
        requires
            0 <= row,
            0 <= stride,
    ;
}

fn normalize_grey(payload: &[u8], format: &NegotiatedFormat) -> (frame: Result<Frame, CameraError>)
    ensures
        match grey_error(payload@.len() as usize, *format) {
            Some(error) => frame == Err::<Frame, CameraError>(error),
            None => frame matches Ok(gray) && gray.data@ == grey_pixels(payload@, *format)
                && gray.width == format.width && gray.height == format.height && gray.format
                == FrameFormat::Gray,
        },
{
    match validate_dimensions(format.width, format.height, "GREY") {
        Err(error) => {
            return Err(error);
        },
        Ok(()) => {},
    }
    let width: usize = format.width as usize;
    let height: usize = format.height as usize;
    let stride: usize = effective_stride(format.stride, width);
    let output_len: usize = match checked_frame_len(format.width, format.height, 1, "GREY") {
        Err(error) => {
            return Err(error);
        },
        Ok(length) => length,
    };
    match validate_raw_payload(payload, height, stride, width, format.size, "GREY") {
        Err(error) => {
            return Err(error);
        },
        Ok(()) => {},
    }
    let used: usize = payload.len();
    let ghost required = (height - 1) * stride + width;
    let mut gray: Vec<u8> = Vec::with_capacity(output_len);
    let mut row: usize = 0;
    assert(0 * width == 0) by (nonlinear_arith);
    while row < height
        invariant
            row <= height,
            height == format.height,
            width == format.width,
            width > 0,
            stride == stride_of(format.stride, width),
            required == (height - 1) * stride + width,
            required <= used,
            used == payload@.len(),
            gray@.len() == row * width,
            forall|i: int|
                0 <= i < gray@.len() ==> gray@[i] == payload@[(i / (width as int)) * stride + i % (
                width as int)],
        decreases height - row,
    {
        proof {
            row_bounds(
                row as int,
                height as int,
                stride as int,
                width as int,
                required,
                used as int,
            );
        }
        let start: usize = row * stride;
        let mut column: usize = 0;
        while column < width
            invariant
                column <= width,
                row < height,
                width > 0,
                start == row * stride,
                start + width <= used,
                used == payload@.len(),
                gray@.len() == row * width + column,
                forall|i: int|
                    0 <= i < gray@.len() ==> gray@[i] == payload@[(i / (width as int)) * stride + i
                        % (width as int)],
            decreases width - column,
        {
            proof {
                let at = row * width + column;
                lemma_fundamental_div_mod_converse(
                    at,
                    width as int,
                    row as int,
                    column as int,
                );
            }
            gray.push(payload[start + column]);
            column = column + 1;
        }
        row = row + 1;
        assert(row * width == (row - 1) * width + width) by (nonlinear_arith)
            requires
                row >= 1,
        ;
    }
    proof {
        assert(height * width == width * height) by (nonlinear_arith);
        assert(gray@ =~= grey_pixels(payload@, *format));
    }
    Ok(Frame { data: gray, width: format.width, height: format.height, format: FrameFormat::Gray })
}

/// Why a packed luma-chroma payload cannot be unpacked.
pub open spec fn yuyv_error(used: usize, format: NegotiatedFormat) -> Option<CameraError> {
    let width = format.width as usize;
    let height = format.height as usize;
    let active = 2 * width;
    match dimension_error(format.width, format.height, "YUYV") {
        Some(error) => Some(error),
        None => if format.width % 2 != 0 {
            Some(CameraError::OddWidth { width: format.width })
        } else if active > usize::MAX {
            Some(CameraError::RowOverflow { name: "YUYV" })
        } else {
            match frame_len(format.width, format.height, 3, "YUYV") {
                Err(error) => Some(error),
                Ok(_) => raw_payload_error(
                    used,
                    height,
                    stride_of(format.stride, active as usize),
                    active as usize,
                    format.size,
                    "YUYV",
                ),
            }
        },
    }
}

/// `convert` can turn the samples of one pixel into `pixel`.
pub open spec fn converts<F: Fn(u8, u8, u8, YuyvQuantization) -> [u8; 3]>(
    convert: F,
    luma: u8,
    blue_difference: u8,
    red_difference: u8,
    quantization: YuyvQuantization,
    pixel: [u8; 3],
) -> bool {
    call_ensures(convert, (luma, blue_difference, red_difference, quantization), pixel)
}

/// The three bytes from `at` on are a conversion of the samples of the pixel at
/// `row`, `column`: its own luma, and the chroma it shares with its neighbour.
pub open spec fn pixel_converted<F: Fn(u8, u8, u8, YuyvQuantization) -> [u8; 3]>(
    convert: F,
    payload: Seq<u8>,
    start: int,
    column: int,
    quantization: YuyvQuantization,
    data: Seq<u8>,
    at: int,
) -> bool {
    exists|pixel: [u8; 3]| #[trigger]
        converts(
            convert,
            payload[start + 2 * column],
            payload[start + 4 * (column / 2) + 1],
            payload[start + 4 * (column / 2) + 3],
            quantization,
            pixel,
        ) && pixel@ == data.subrange(at, at + 3)
}

proof fn pixel_stays_converted<F: Fn(u8, u8, u8, YuyvQuantization) -> [u8; 3]>(
    convert: F,
    payload: Seq<u8>,
    start: int,
    column: int,
    quantization: YuyvQuantization,
    data: Seq<u8>,
    longer: Seq<u8>,
    at: int,
)
    requires
        pixel_converted(convert, payload, start, column, quantization, data, at),
        0 <= at,
        at + 3 <= data.len() <= longer.len(),
        longer.take(data.len() as int) == data,
    ensures
        pixel_converted(convert, payload, start, column, quantization, longer, at),
{
    assert(longer.subrange(at, at + 3) =~= longer.take(data.len() as int).subrange(at, at + 3));
}

fn normalize_yuyv<F: Fn(u8, u8, u8, YuyvQuantization) -> [u8; 3]>(
    payload: &[u8],
    format: &NegotiatedFormat,
    convert: &F,
) -> (frame: Result<Frame, CameraError>)
    requires
        forall|y: u8, u: u8, v: u8, q: YuyvQuantization| call_requires(*convert, (y, u, v, q)),
    ensures
        match yuyv_error(payload@.len() as usize, *format) {
            Some(error) => frame == Err::<Frame, CameraError>(error),
            None => frame matches Ok(bgr) && bgr.width == format.width && bgr.height
                == format.height && bgr.format == FrameFormat::Bgr && yuyv_unpacked(
                *convert,
                payload@,
                *format,
                bgr.data@,
            ),
        },
{
    match validate_dimensions(format.width, format.height, "YUYV") {
        Err(error) => {
            return Err(error);
        },
        Ok(()) => {},
    }
    if format.width % 2 != 0 {
        return Err(CameraError::OddWidth { width: format.width });
    }
    let width: usize = format.width as usize;
    let height: usize = format.height as usize;
    let active: usize = match width.checked_mul(2) {
        Some(active) => active,
        None => {
            return Err(CameraError::RowOverflow { name: "YUYV" });
        },
    };
    let stride: usize = effective_stride(format.stride, active);
    let quantization = yuyv_quantization(format);
    let output_len: usize = match checked_frame_len(format.width, format.height, 3, "YUYV") {
        Err(error) => {
            return Err(error);
        },
        Ok(length) => length,
    };
    match validate_raw_payload(payload, height, stride, active, format.size, "YUYV") {
        Err(error) => {
            return Err(error);
        },
        Ok(()) => {},
    }
    let used: usize = payload.len();
    let ghost required = (height - 1) * stride + active;
    let mut bgr: Vec<u8> = Vec::with_capacity(output_len);
    let mut row: usize = 0;
    assert(3 * (0 * width) == 0) by (nonlinear_arith);
    while row < height
        invariant
            row <= height,
            height == format.height,
            width == format.width,
            width > 0,
            width % 2 == 0,
            active == 2 * width,
            stride == stride_of(format.stride, active),
            quantization == resolved_quantization(*format),
            required == (height - 1) * stride + active,
            required <= used,
            used == payload@.len(),
            bgr@.len() == 3 * (row * width),
            forall|y: u8, u: u8, v: u8, q: YuyvQuantization| call_requires(*convert, (y, u, v, q)),
            forall|r: int, c: int|
                0 <= r < row && 0 <= c < width ==> #[trigger] pixel_converted(
                    *convert,
                    payload@,
                    r * stride,
                    c,
                    quantization,
                    bgr@,
                    3 * (r * width + c),
                ),
        decreases height - row,
    {
        proof {
            row_bounds(
                row as int,
                height as int,
                stride as int,
                active as int,
                required,
                used as int,
            );
        }
        let start: usize = row * stride;
        let mut column: usize = 0;
        while column < width
            invariant
                column <= width,
                row < height,
                width > 0,
                width % 2 == 0,
                active == 2 * width,
                start == row * stride,
                start + active <= used,
                used == payload@.len(),
                bgr@.len() == 3 * (row * width + column),
                forall|y: u8, u: u8, v: u8, q: YuyvQuantization|
                    call_requires(*convert, (y, u, v, q)),
                forall|r: int, c: int|
                    0 <= r < row && 0 <= c < width ==> #[trigger] pixel_converted(
                        *convert,
                        payload@,
                        r * stride,
                        c,
                        quantization,
                        bgr@,
                        3 * (r * width + c),
                    ),
                forall|c: int|
                    0 <= c < column ==> #[trigger] pixel_converted(
                        *convert,
                        payload@,
                        start as int,
                        c,
                        quantization,
                        bgr@,
                        3 * (row * width + c),
                    ),
            decreases width - column,
        {
            let ghost before = bgr@;
            let pair: usize = start + 4 * (column / 2);
            let luma: u8 = payload[start + 2 * column];
            let blue: u8 = payload[pair + 1];
            let red: u8 = payload[pair + 3];
            let pixel = convert(luma, blue, red, quantization);
            assert(converts(*convert, luma, blue, red, quantization, pixel));
            bgr.push(pixel[0]);
            bgr.push(pixel[1]);
            bgr.push(pixel[2]);
            proof {
                assert(bgr@.take(before.len() as int) =~= before);
                let at = 3 * (row * width + column);
                assert(bgr@.subrange(at, at + 3) =~= pixel@);
                assert(pixel_converted(
                    *convert,
                    payload@,
                    start as int,
                    column as int,
                    quantization,
                    bgr@,
                    at,
                ));
                assert forall|r: int, c: int|
                    0 <= r < row && 0 <= c < width implies #[trigger] pixel_converted(
                    *convert,
                    payload@,
                    r * stride,
                    c,
                    quantization,
                    bgr@,
                    3 * (r * width + c),
                ) by {
                    assert(0 <= r * width + c && r * width + c < row * width) by (nonlinear_arith)
                        requires
                            0 <= r < row,
                            0 <= c < width,
                    ;
                    pixel_stays_converted(
                        *convert,
                        payload@,
                        r * stride,
                        c,
                        quantization,
                        before,
                        bgr@,
                        3 * (r * width + c),
                    );
                }
                assert forall|c: int| 0 <= c < column implies #[trigger] pixel_converted(
                    *convert,
                    payload@,
                    start as int,
                    c,
                    quantization,
                    bgr@,
                    3 * (row * width + c),
                ) by {
                    assert(0 <= row * width) by (nonlinear_arith)
                        requires
                            0 <= row,
                            0 <= width,
                    ;
                    pixel_stays_converted(
                        *convert,
                        payload@,
                        start as int,
                        c,
                        quantization,
                        before,
                        bgr@,
                        3 * (row * width + c),
                    );
                }
            }
            column = column + 1;
        }
        row = row + 1;
        proof {
            assert(row * width == (row - 1) * width + width) by (nonlinear_arith)
                requires
                    row >= 1,
            ;
        }
    }
    proof {
        assert(height * width == width * height) by (nonlinear_arith);
        assert(yuyv_unpacked(*convert, payload@, *format, bgr@));
    }
    Ok(Frame { data: bgr, width: format.width, height: format.height, format: FrameFormat::Bgr })
}

/// `data` holds a conversion of every pixel of the payload, in order and tightly.
pub open spec fn yuyv_unpacked<F: Fn(u8, u8, u8, YuyvQuantization) -> [u8; 3]>(
    convert: F,
    payload: Seq<u8>,
    format: NegotiatedFormat,
    data: Seq<u8>,
) -> bool {
    let width = format.width as int;
    let stride = stride_of(format.stride, (2 * format.width) as usize) as int;
    &&& data.len() == 3 * (width * format.height)
    &&& forall|row: int, column: int|
        0 <= row < format.height && 0 <= column < width ==> #[trigger] pixel_converted(
            convert,
            payload,
            row * stride,
            column,
            resolved_quantization(format),
            data,
            3 * (row * width + column),
        )
}

/// A payload that has been unpacked, or one that is still to be decoded.
#[derive(Debug)]
pub enum NormalizedMmapPayload<'a> {
    Frame(Frame),
    Mjpeg(&'a [u8]),
}

/// What normalizing `used` bytes of a mapped buffer gives.
pub open spec fn payload_normalized<F: Fn(u8, u8, u8, YuyvQuantization) -> [u8; 3]>(
    normalized: Result<NormalizedMmapPayload, CameraError>,
    mapped: Seq<u8>,
    used: u32,
    format: NegotiatedFormat,
    convert: F,
) -> bool {
    let payload = mapped.take(used as int);
    let rejected = |error: CameraError|
        normalized == Err::<NormalizedMmapPayload, CameraError>(error);
    if used == 0 {
        rejected(CameraError::EmptyPayload)
    } else if used > mapped.len() {
        rejected(CameraError::ExceedsMapping { used: used as usize, mapped: mapped.len() as usize })
    } else {
        match fourcc_format(format.fourcc@) {
            None => rejected(CameraError::UnsupportedFourcc { fourcc: format.fourcc }),
            Some(CaptureFormat::Mjpeg) => match mjpeg_payload_error(used as usize, format.size) {
                Some(error) => rejected(error),
                None => normalized matches Ok(NormalizedMmapPayload::Mjpeg(encoded)) && encoded@
                    == payload,
            },
            Some(CaptureFormat::Grey) => match grey_error(used as usize, format) {
                Some(error) => rejected(error),
                None => normalized matches Ok(NormalizedMmapPayload::Frame(frame)) && frame.data@
                    == grey_pixels(payload, format) && frame.width == format.width && frame.height
                    == format.height && frame.format == FrameFormat::Gray,
            },
            Some(CaptureFormat::Yuyv) => match yuyv_error(used as usize, format) {
                Some(error) => rejected(error),
                None => normalized matches Ok(NormalizedMmapPayload::Frame(frame)) && frame.width
                    == format.width && frame.height == format.height && frame.format
                    == FrameFormat::Bgr && yuyv_unpacked(convert, payload, format, frame.data@),
            },
        }
    }
}

/// Validates a mapped payload and normalizes raw formats into tight frames.
/// `convert` turns one luma sample and its two chroma samples into a pixel.
pub fn normalize_mmap_payload<'a, F: Fn(u8, u8, u8, YuyvQuantization) -> [u8; 3]>(
    mapped: &'a [u8],
    bytesused: u32,
    format: &NegotiatedFormat,
    convert: &F,
) -> (normalized: Result<NormalizedMmapPayload<'a>, CameraError>)
    requires
        forall|y: u8, u: u8, v: u8, q: YuyvQuantization| call_requires(*convert, (y, u, v, q)),
    ensures
        payload_normalized(normalized, mapped@, bytesused, *format, *convert),
{
    let used: usize = bytesused as usize;
    if used == 0 {
        return Err(CameraError::EmptyPayload);
    }
    if used > mapped.len() {
        return Err(CameraError::ExceedsMapping { used, mapped: mapped.len() });
    }
    let capture_format = match capture_format_from_fourcc(format.fourcc) {
        Err(error) => {
            return Err(error);
        },
        Ok(capture_format) => capture_format,
    };
    let payload = vstd::slice::slice_subrange(mapped, 0, used);
    assert(payload@ =~= mapped@.take(used as int));
    match capture_format {
        CaptureFormat::Mjpeg => match validate_mjpeg_payload_len(used, format.size) {
            Err(error) => Err(error),
            Ok(()) => Ok(NormalizedMmapPayload::Mjpeg(payload)),
        },
        CaptureFormat::Grey => match normalize_grey(payload, format) {
            Err(error) => Err(error),
            Ok(frame) => Ok(NormalizedMmapPayload::Frame(frame)),
        },
        CaptureFormat::Yuyv => match normalize_yuyv(payload, format, convert) {
            Err(error) => Err(error),
            Ok(frame) => Ok(NormalizedMmapPayload::Frame(frame)),
        },
    }
}

/// Why a raw format cannot be captured: its rows, its payload, the buffer that
/// was offered for it, or its frame is too large.
pub open spec fn negotiated_raw_error(
    format: NegotiatedFormat,
    input_bytes_per_pixel: usize,
    name: &'static str,
    size_image: usize,
) -> Option<CameraError> {
    let active = format.width * input_bytes_per_pixel;
    let output_bytes_per_pixel: usize = if input_bytes_per_pixel == 1 {
        1
    } else {
        3
    };
    if active > usize::MAX {
        Some(CameraError::RowOverflow { name })
    } else {
        match payload_len(
            format.height as usize,
            stride_of(format.stride, active as usize),
            active as usize,
            name,
        ) {
            Err(error) => Some(error),
            Ok(required) => if size_image < required {
                Some(CameraError::SizeImageTooSmall { name, size_image, required })
            } else {
                match frame_len(format.width, format.height, output_bytes_per_pixel, name) {
                    Err(error) => Some(error),
                    Ok(_) => None,
                }
            },
        }
    }
}

fn validate_negotiated_raw_format(
    format: &NegotiatedFormat,
    input_bytes_per_pixel: usize,
    name: &'static str,
    size_image: usize,
) -> (result: Result<(), CameraError>)
    ensures
        result == (match negotiated_raw_error(*format, input_bytes_per_pixel, name, size_image) {
            Some(error) => Err(error),
            None => Ok(()),
        }),
{
    let width: usize = format.width as usize;
    let height: usize = format.height as usize;
    let active: usize = match width.checked_mul(input_bytes_per_pixel) {
        None => {
            return Err(CameraError::RowOverflow { name });
        },
        Some(active) => active,
    };
    let stride: usize = effective_stride(format.stride, active);
    let required: usize = match checked_raw_payload_len(height, stride, active, name) {
        Err(error) => {
            return Err(error);
        },
        Ok(required) => required,
    };
    if size_image < required {
        return Err(CameraError::SizeImageTooSmall { name, size_image, required });
    }
    let output_bytes_per_pixel: usize = if input_bytes_per_pixel == 1 {
        1
    } else {
        3
    };
    match checked_frame_len(format.width, format.height, output_bytes_per_pixel, name) {
        Err(error) => Err(error),
        Ok(_) => Ok(()),
    }
}

/// Why a negotiated format is refused before any buffer is mapped for it.
pub open spec fn negotiated_error(format: NegotiatedFormat) -> Option<CameraError> {
    let size_image = format.size as usize;
    match fourcc_format(format.fourcc@) {
        None => Some(CameraError::UnsupportedFourcc { fourcc: format.fourcc }),
        Some(capture_format) => match dimension_error(format.width, format.height, "frame") {
            Some(error) => Some(error),
            None => if size_image == 0 {
                Some(CameraError::ZeroSizeImage { fourcc: format.fourcc })
            } else if size_image > MAX_MAPPED_BUFFER_BYTES {
                Some(CameraError::SizeImageLimit { size_image })
            } else {
                match capture_format {
                    CaptureFormat::Mjpeg => if size_image > crate::frame::MAX_MJPEG_ENCODED_BYTES {
                        Some(CameraError::SizeImageEnvelope)
                    } else {
                        mjpeg_geometry_error(format.width, format.height)
                    },
                    CaptureFormat::Grey => match negotiated_raw_error(
                        format,
                        1,
                        "GREY",
                        size_image,
                    ) {
                        Some(error) => Some(error),
                        None => match frame_len(
                            format.width,
                            format.height,
                            3,
                            "GREY BGR expansion",
                        ) {
                            Err(error) => Some(error),
                            Ok(_) => None,
                        },
                    },
                    CaptureFormat::Yuyv => if format.width % 2 != 0 {
                        Some(CameraError::OddWidth { width: format.width })
                    } else {
                        negotiated_raw_error(format, 2, "YUYV", size_image)
                    },
                }
            },
        },
    }
}

pub fn validate_negotiated_format(format: &NegotiatedFormat) -> (result: Result<(), CameraError>)
    ensures
        result == (match negotiated_error(*format) {
            Some(error) => Err(error),
            None => Ok(()),
        }),
{
    let capture_format = match capture_format_from_fourcc(format.fourcc) {
        Err(error) => {
            return Err(error);
        },
        Ok(capture_format) => capture_format,
    };
    match validate_dimensions(format.width, format.height, "frame") {
        Err(error) => {
            return Err(error);
        },
        Ok(()) => {},
    }
    let size_image: usize = format.size as usize;
    if size_image == 0 {
        return Err(CameraError::ZeroSizeImage { fourcc: format.fourcc });
    }
    if size_image > MAX_MAPPED_BUFFER_BYTES {
        return Err(CameraError::SizeImageLimit { size_image });
    }
    match capture_format {
        CaptureFormat::Mjpeg => {
            match validate_mjpeg_encoded_len(size_image) {
                Err(_) => {
                    return Err(CameraError::SizeImageEnvelope);
                },
                Ok(()) => {},
            }
            validate_mjpeg_geometry(format.width, format.height)
        },
        CaptureFormat::Grey => {
            match validate_negotiated_raw_format(format, 1, "GREY", size_image) {
                Err(error) => {
                    return Err(error);
                },
                Ok(()) => {},
            }
            match checked_frame_len(format.width, format.height, 3, "GREY BGR expansion") {
                Err(error) => Err(error),
                Ok(_) => Ok(()),
            }
        },
        CaptureFormat::Yuyv => {
            if format.width % 2 != 0 {
                return Err(CameraError::OddWidth { width: format.width });
            }
            validate_negotiated_raw_format(format, 2, "YUYV", size_image)
        },
    }
}

/// An accepted raw format can be unpacked from every buffer that is filled to
/// the negotiated size, and the frame, expanded to color, is within the limit.
pub proof fn accepted_formats_unpack(format: NegotiatedFormat, used: usize)
    requires
        negotiated_error(format) is None,
        used >= format.size,
    ensures
        fourcc_format(format.fourcc@) == Some(CaptureFormat::Grey) ==> grey_error(used, format)
            is None,
        fourcc_format(format.fourcc@) == Some(CaptureFormat::Yuyv) ==> yuyv_error(used, format)
            is None,
        3 * (format.width * format.height) <= MAX_NORMALIZED_FRAME_BYTES,
        fourcc_format(format.fourcc@) is Some,
{
    assert(format.width * 2 == 2 * format.width);
    assert(format.width * 1 == format.width);
    assert((format.width * format.height) * 3 == 3 * (format.width * format.height));
}

/// How far apart the rows of a payload are that has `bytes` for each pixel: as the
/// device says, unless its rows would overlap.
pub open spec fn row_distance(format: NegotiatedFormat, bytes: int) -> int {
    if format.stride >= bytes * format.width {
        format.stride as int
    } else {
        bytes * format.width
    }
}

/// A packed luma-chroma payload is unpacked group by group: the four bytes of a
/// group are the luma of its left pixel, the chroma that both share in blue, the
/// luma of its right pixel and the chroma in red. A group makes two pixels of three
/// bytes, at its own place, and no other byte of the payload counts. The range is
/// what the device says, or that of the colorspace.
pub proof fn yuyv_groups_make_two_pixels<F: Fn(u8, u8, u8, YuyvQuantization) -> [u8; 3]>(
    normalized: Result<NormalizedMmapPayload, CameraError>,
    mapped: Seq<u8>,
    used: u32,
    format: NegotiatedFormat,
    convert: F,
    row: int,
    group: int,
)
    requires
        payload_normalized(normalized, mapped, used, format, convert),
        format.fourcc@ == seq![89u8, 85u8, 89u8, 86u8],
        normalized is Ok,
        0 <= row < format.height,
        0 <= group < format.width as int / 2,
    ensures
        normalized matches Ok(NormalizedMmapPayload::Frame(frame)) && {
            let from = row * row_distance(format, 2) + 4 * group;
            let to = 3 * (row * format.width + 2 * group);
            let full = format.quantization == Quantization::FullRange || (format.quantization
                == Quantization::Default && format.colorspace == Colorspace::Jpeg);
            let range = if full {
                YuyvQuantization::FullRange
            } else {
                YuyvQuantization::LimitedRange
            };
            &&& frame.width == format.width && frame.height == format.height
            &&& frame.format == FrameFormat::Bgr
            &&& frame.data@.len() == 3 * (format.width * format.height)
            &&& 0 <= from && from + 4 <= used <= mapped.len()
            &&& 0 <= to && to + 6 <= frame.data@.len()
            &&& exists|left: [u8; 3], right: [u8; 3]|
                #![trigger left@, right@]
                call_ensures(convert, (mapped[from], mapped[from + 1], mapped[from + 3], range), left)
                    && call_ensures(
                    convert,
                    (mapped[from + 2], mapped[from + 1], mapped[from + 3], range),
                    right,
                ) && frame.data@.subrange(to, to + 6) == left@ + right@
        },
{
    let payload = mapped.take(used as int);
    assert(fourcc_format(format.fourcc@) == Some(CaptureFormat::Yuyv)) by {
        assert(seq![89u8, 85u8, 89u8, 86u8][0] == 89u8);
        assert(seq![77u8, 74u8, 80u8, 71u8][0] == 77u8);
    }
    let frame = normalized->Ok_0->Frame_0;
    let width = format.width as int;
    let active = (2 * format.width) as usize;
    let stride = stride_of(format.stride, active) as int;
    assert(stride == row_distance(format, 2));
    assert(yuyv_error(used as usize, format) is None);
    let data = frame.data@;
    let from = row * stride + 4 * group;
    let to = 3 * (row * width + 2 * group);
    row_bounds(
        row,
        format.height as int,
        stride,
        active as int,
        (format.height - 1) * stride + active,
        used as int,
    );
    assert(row * width + width <= width * format.height && 0 <= row * width) by (nonlinear_arith)
        requires
            0 <= row < format.height,
            0 <= width,
            width == format.width,
    ;
    let range = resolved_quantization(format);
    assert(pixel_converted(convert, payload, row * stride, 2 * group, range, data, to));
    assert(pixel_converted(
        convert,
        payload,
        row * stride,
        2 * group + 1,
        range,
        data,
        3 * (row * width + (2 * group + 1)),
    ));
    assert((2 * group) / 2 == group && (2 * group + 1) / 2 == group);
    let left = choose|pixel: [u8; 3]| #[trigger]
        converts(convert, payload[from], payload[from + 1], payload[from + 3], range, pixel)
            && pixel@ == data.subrange(to, to + 3);
    let right = choose|pixel: [u8; 3]| #[trigger]
        converts(convert, payload[from + 2], payload[from + 1], payload[from + 3], range, pixel)
            && pixel@ == data.subrange(to + 3, to + 6);
    assert(payload[from] == mapped[from] && payload[from + 1] == mapped[from + 1]);
    assert(payload[from + 2] == mapped[from + 2] && payload[from + 3] == mapped[from + 3]);
    assert(row * stride + 2 * (2 * group) == from);
    assert(row * stride + 2 * (2 * group + 1) == from + 2);
    assert(converts(convert, mapped[from], mapped[from + 1], mapped[from + 3], range, left));
    assert(converts(convert, mapped[from + 2], mapped[from + 1], mapped[from + 3], range, right));
    assert(data.subrange(to, to + 6) =~= data.subrange(to, to + 3) + data.subrange(to + 3, to + 6));
    assert(data.subrange(to, to + 6) == left@ + right@);
}

/// A gray payload is unpacked byte by byte: each pixel is the byte at its row and
/// column, and the bytes between rows are left out.
pub proof fn gray_pixels_keep_their_place<F: Fn(u8, u8, u8, YuyvQuantization) -> [u8; 3]>(
    normalized: Result<NormalizedMmapPayload, CameraError>,
    mapped: Seq<u8>,
    used: u32,
    format: NegotiatedFormat,
    convert: F,
    row: int,
    column: int,
)
    requires
        payload_normalized(normalized, mapped, used, format, convert),
        format.fourcc@ == seq![71u8, 82u8, 69u8, 89u8],
        normalized is Ok,
        0 <= row < format.height,
        0 <= column < format.width,
    ensures
        normalized matches Ok(NormalizedMmapPayload::Frame(frame)) && {
            let from = row * row_distance(format, 1) + column;
            &&& frame.width == format.width && frame.height == format.height
            &&& frame.format == FrameFormat::Gray
            &&& frame.data@.len() == format.width * format.height
            &&& 0 <= from < used <= mapped.len()
            &&& frame.data@[row * format.width + column] == mapped[from]
        },
{
    let payload = mapped.take(used as int);
    assert(fourcc_format(format.fourcc@) == Some(CaptureFormat::Grey)) by {
        assert(seq![71u8, 82u8, 69u8, 89u8][0] == 71u8);
        assert(seq![89u8, 85u8, 89u8, 86u8][0] == 89u8);
        assert(seq![77u8, 74u8, 80u8, 71u8][0] == 77u8);
    }
    let frame = normalized->Ok_0->Frame_0;
    let width = format.width as int;
    let stride = stride_of(format.stride, format.width as usize) as int;
    assert(stride == row_distance(format, 1));
    assert(grey_error(used as usize, format) is None);
    row_bounds(
        row,
        format.height as int,
        stride,
        width,
        (format.height - 1) * stride + width,
        used as int,
    );
    let at = row * width + column;
    assert(0 <= at < width * format.height) by (nonlinear_arith)
        requires
            0 <= row < format.height,
            0 <= column < width,
            at == row * width + column,
    ;
    lemma_fundamental_div_mod_converse(at, width, row, column);
    assert(frame.data@[at] == payload[row * stride + column]);
}

/// A compressed payload is handed on as it is, all of what was used and no more,
/// exactly where it fits what was negotiated and that fits the limit.
pub proof fn compressed_payloads_stay<F: Fn(u8, u8, u8, YuyvQuantization) -> [u8; 3]>(
    normalized: Result<NormalizedMmapPayload, CameraError>,
    mapped: Seq<u8>,
    used: u32,
    format: NegotiatedFormat,
    convert: F,
)
    requires
        payload_normalized(normalized, mapped, used, format, convert),
        format.fourcc@ == seq![77u8, 74u8, 80u8, 71u8],
    ensures
        normalized matches Ok(found) ==> (found matches NormalizedMmapPayload::Mjpeg(encoded)
            && encoded@.len() == used && forall|i: int|
            0 <= i < used ==> #[trigger] encoded@[i] == mapped[i]),
        normalized is Ok <==> 0 < used <= mapped.len() && used <= format.size <= 16777216,
{
}

/// A raw payload is unpacked exactly where the frame has pixels, in whole groups,
/// where both fit their limits, and where the payload holds every row: all with
/// their padding but for the last.
pub proof fn whole_payloads_are_unpacked<F: Fn(u8, u8, u8, YuyvQuantization) -> [u8; 3]>(
    normalized: Result<NormalizedMmapPayload, CameraError>,
    mapped: Seq<u8>,
    used: u32,
    format: NegotiatedFormat,
    convert: F,
    bytes: int,
)
    requires
        payload_normalized(normalized, mapped, used, format, convert),
        (bytes == 1 && format.fourcc@ == seq![71u8, 82u8, 69u8, 89u8]) || (bytes == 2
            && format.fourcc@ == seq![89u8, 85u8, 89u8, 86u8]),
    ensures
        normalized is Ok <==> {
            let needed = (format.height - 1) * row_distance(format, bytes) + bytes * format.width;
            &&& 0 < format.width && 0 < format.height
            &&& bytes == 2 ==> format.width % 2 == 0
            &&& format.width * format.height * (if bytes == 1 {
                1int
            } else {
                3
            }) <= 134217728
            &&& 0 < used <= mapped.len()
            &&& needed <= 134217728 && needed <= used
        },
{
    assert(seq![71u8, 82u8, 69u8, 89u8][0] == 71u8);
    assert(seq![89u8, 85u8, 89u8, 86u8][0] == 89u8);
    assert(seq![77u8, 74u8, 80u8, 71u8][0] == 77u8);
    if bytes == 1 {
        assert(fourcc_format(format.fourcc@) == Some(CaptureFormat::Grey));
        assert(stride_of(format.stride, format.width as usize) == row_distance(format, 1));
        assert(format.width * format.height * 1 == format.width * format.height);
    } else {
        assert(fourcc_format(format.fourcc@) == Some(CaptureFormat::Yuyv));
        if 2 * format.width <= usize::MAX {
            assert(stride_of(format.stride, (2 * format.width) as usize) == row_distance(
                format,
                2,
            ));
        }
        assert(0 < format.height ==> 0 <= (format.height - 1) * row_distance(format, 2))
            by (nonlinear_arith)
            requires
                0 <= row_distance(format, 2),
        ;
    }
}


/// A raw format is accepted exactly where its picture has a size, its rows fit into the
/// buffer that the device announces, that buffer is not too large, and the picture does
/// not become too large when it is unpacked. With two bytes for each pixel, pixels come in
/// pairs.
pub proof fn accepted_raw_formats_fit(format: NegotiatedFormat, bytes: int)
    requires
        (bytes == 1 && format.fourcc@ == seq![71u8, 82u8, 69u8, 89u8]) || (bytes == 2
            && format.fourcc@ == seq![89u8, 85u8, 89u8, 86u8]),
        2 * format.width <= usize::MAX,
        3 * (format.width * format.height) <= usize::MAX,
        (format.height - 1) * row_distance(format, bytes) + bytes * format.width <= usize::MAX,
    ensures
        negotiated_error(format) is None <==> {
            &&& format.width > 0 && format.height > 0
            &&& bytes == 2 ==> format.width % 2 == 0
            &&& 0 < format.size <= 134217728
            &&& (format.height - 1) * row_distance(format, bytes) + bytes * format.width
                <= format.size
            &&& 3 * (format.width * format.height) <= 134217728
        },
{
    let gray = seq![71u8, 82u8, 69u8, 89u8];
    let pairs = seq![89u8, 85u8, 89u8, 86u8];
    let compressed = seq![77u8, 74u8, 80u8, 71u8];
    assert(gray[0] == 71 && pairs[0] == 89 && compressed[0] == 77);
    assert(gray != pairs && gray != compressed && pairs != compressed);
    assert(format.width * format.height * 1 == format.width * format.height) by (nonlinear_arith);
    assert(format.width * format.height * 3 == 3 * (format.width * format.height))
        by (nonlinear_arith);
    assert(0 <= format.width * format.height) by (nonlinear_arith);
}

/// The three formats are known by their codes, and nothing else is a format.
pub proof fn formats_have_their_codes(fourcc: Seq<u8>)
    ensures
        fourcc_format(fourcc) == Some(CaptureFormat::Mjpeg) <==> fourcc == seq![
            77u8,
            74u8,
            80u8,
            71u8,
        ],
        fourcc_format(fourcc) == Some(CaptureFormat::Yuyv) <==> fourcc == seq![
            89u8,
            85u8,
            89u8,
            86u8,
        ],
        fourcc_format(fourcc) == Some(CaptureFormat::Grey) <==> fourcc == seq![
            71u8,
            82u8,
            69u8,
            89u8,
        ],
{
    let gray = seq![71u8, 82u8, 69u8, 89u8];
    let pairs = seq![89u8, 85u8, 89u8, 86u8];
    let compressed = seq![77u8, 74u8, 80u8, 71u8];
    assert(gray[0] == 71 && pairs[0] == 89 && compressed[0] == 77);
}

/// Rows take what the device says, but never less than their pixels; a frame takes its
/// pixels times their bytes, and is refused above its limit; and a payload reaches to the
/// end of the last row's pixels.
pub proof fn sizes_follow_from_the_picture(
    width: u32,
    height: u32,
    bytes: usize,
    reported: u32,
    active: usize,
    name: &'static str,
)
    ensures
        stride_of(reported, active) >= reported && stride_of(reported, active) >= active,
        stride_of(reported, active) == reported || stride_of(reported, active) == active,
        frame_len(width, height, bytes, name) matches Ok(length) ==> length == width * height
            * bytes && length <= 134217728,
        width * height <= usize::MAX && width * height * bytes <= 134217728 && 134217728 <= usize::MAX
            ==> frame_len(width, height, bytes, name) is Ok,
        payload_len(height as usize, stride_of(reported, active), active, name) matches Ok(required)
            ==> height > 0 && required == (height - 1) * stride_of(reported, active) + active
            && required <= 134217728,
        dimension_error(width, height, name) is None <==> width > 0 && height > 0,
{
}


/// A compressed format is accepted exactly where its picture has a size within the
/// limits, and the buffer that the device announces is not too large.
pub proof fn accepted_compressed_formats_fit(format: NegotiatedFormat)
    requires
        format.fourcc@ == seq![77u8, 74u8, 80u8, 71u8],
    ensures
        negotiated_error(format) is None <==> {
            &&& 0 < format.width <= 4096 && 0 < format.height <= 4096
            &&& format.width * format.height <= 8847360
            &&& 0 < format.size <= 16777216
        },
{
}

} // verus!
