//! Frames, and the normalization of mapped raw buffers into them.
use crate::text::push_decimal;
use std::borrow::Cow;
use vstd::prelude::*;
use vstd::string::*;

verus! {

pub const MAX_MAPPED_BUFFER_BYTES: usize = 134217728;

pub const MAX_NORMALIZED_FRAME_BYTES: usize = 134217728;

pub const MAX_MJPEG_ENCODED_BYTES: usize = 16777216;

pub const MAX_MJPEG_DIMENSION: u32 = 4096;

/// As many as a frame of 4096 by 2160 has.
pub const MAX_MJPEG_PIXELS: usize = 8847360;

/// Pixel format of a captured frame.
#[derive(Clone, Copy, Debug, PartialEq, Eq, Structural)]
pub enum FrameFormat {
    /// Three bytes per pixel: blue, green, red.
    Bgr,
    /// One byte per pixel: grayscale intensity.
    Gray,
}

/// A captured camera frame with format metadata.
#[derive(Debug)]
pub struct Frame {
    pub data: Vec<u8>,
    pub width: u32,
    pub height: u32,
    pub format: FrameFormat,
}

/// Each gray value three times over.
pub open spec fn tripled(gray: Seq<u8>) -> Seq<u8> {
    Seq::new(3 * gray.len(), |i: int| gray[i / 3])
}

impl Frame {
    /// The pixels in blue, green, red order.
    pub open spec fn bgr(self) -> Seq<u8> {
        match self.format {
            FrameFormat::Bgr => self.data@,
            FrameFormat::Gray => tripled(self.data@),
        }
    }

    /// Convert to BGR data. A frame that is BGR already is borrowed; a gray one
    /// is expanded.
    pub fn to_bgr_data(&self) -> (result: (Cow<'_, [u8]>, u32, u32))
        requires
            self.format == FrameFormat::Gray ==> 3 * self.data@.len() <= usize::MAX,
        ensures
            (match result.0 {
                Cow::Borrowed(data) => self.format == FrameFormat::Bgr && data@ == self.bgr(),
                Cow::Owned(data) => self.format == FrameFormat::Gray && data@ == self.bgr(),
            }),
            result.1 == self.width,
            result.2 == self.height,
    {
        match self.format {
            FrameFormat::Bgr => (Cow::Borrowed(self.data.as_slice()), self.width, self.height),
            FrameFormat::Gray => {
                let mut bgr: Vec<u8> = Vec::with_capacity(self.data.len() * 3);
                let mut index: usize = 0;
                while index < self.data.len()
                    invariant
                        index <= self.data.len(),
                        bgr@.len() == 3 * index,
                        forall|i: int| 0 <= i < bgr@.len() ==> bgr@[i] == self.data@[i / 3],
                    decreases self.data.len() - index,
                {
                    let gray: u8 = self.data[index];
                    bgr.push(gray);
                    bgr.push(gray);
                    bgr.push(gray);
                    index = index + 1;
                }
                assert(bgr@ =~= tripled(self.data@));
                (Cow::Owned(bgr), self.width, self.height)
            },
        }
    }
}

/// Pixel layouts that a capture device may deliver.
#[derive(Clone, Copy, Debug, PartialEq, Eq, Structural)]
pub enum CaptureFormat {
    Mjpeg,
    Yuyv,
    Grey,
}

/// Value range of luma and chroma samples, as negotiated.
#[derive(Clone, Copy, Debug, PartialEq, Eq, Structural)]
pub enum Quantization {
    Default,
    FullRange,
    LimitedRange,
}

/// Colorspace of the pixels, as negotiated.
#[derive(Clone, Copy, Debug, PartialEq, Eq, Structural)]
pub enum Colorspace {
    Default,
    Smpte170m,
    Smpte240m,
    Rec709,
    Ntsc,
    EbuTech3213,
    Jpeg,
    Srgb,
    OpRgb,
    Rec2020,
    Raw,
    DciP3,
}

/// The format that was negotiated with the capture device.
#[derive(Clone, Copy, Debug, PartialEq, Eq)]
pub struct NegotiatedFormat {
    pub width: u32,
    pub height: u32,
    pub fourcc: [u8; 4],
    pub stride: u32,
    pub size: u32,
    pub colorspace: Colorspace,
    pub quantization: Quantization,
}

/// Why a buffer or a format was rejected. `name` is the kind of frame at hand.
#[derive(Debug, PartialEq, Eq)]
pub enum CameraError {
    EmptyPayload,
    ExceedsMapping { used: usize, mapped: usize },
    UnsupportedFourcc { fourcc: [u8; 4] },
    ZeroDimensions { name: &'static str, width: u32, height: u32 },
    OutputOverflow { name: &'static str },
    OutputLimit { name: &'static str, length: usize },
    ZeroHeight,
    PayloadOverflow { name: &'static str },
    PayloadLimit { name: &'static str, required: usize },
    Truncated { name: &'static str, used: usize, required: usize, negotiated: u32 },
    OddWidth { width: u32 },
    RowOverflow { name: &'static str },
    ZeroSizeImage { fourcc: [u8; 4] },
    SizeImageLimit { size_image: usize },
    SizeImageTooSmall { name: &'static str, size_image: usize, required: usize },
    EmptyEncoded,
    EncodedLimit { length: usize },
    ZeroEncodedSizeImage,
    EncodedSizeImageLimit,
    SizeImageEnvelope,
    ExceedsSizeImage { length: usize, size_image: usize },
    DimensionLimit { width: u32, height: u32 },
    PixelLimit { pixels: usize },
    DimensionMismatch { width: u32, height: u32, negotiated_width: u32, negotiated_height: u32 },
    MalformedHeader,
    DecodeFailed,
    DecodedLength { actual: usize, expected: usize },
    UnsupportedColor { color: String },
}

/// `width`x`height`.
pub open spec fn size_text(width: u32, height: u32) -> Seq<char> {
    crate::text::decimal(width as nat) + "x"@ + crate::text::decimal(height as nat)
}

fn push_size(text: &mut String, width: u32, height: u32)
    ensures
        final(text)@ == old(text)@ + size_text(width, height),
{
    push_decimal(text, width as u64);
    text.append("x");
    push_decimal(text, height as u64);
    assert(text@ =~= old(text)@ + size_text(width, height));
}

pub open spec fn fourcc_text(fourcc: Seq<u8>) -> Seq<char> {
    fourcc.map_values(|byte: u8| byte as char)
}

fn push_fourcc(text: &mut String, fourcc: [u8; 4])
    ensures
        final(text)@ == old(text)@ + fourcc_text(fourcc@),
{
    crate::text::push_char(text, fourcc[0] as char);
    crate::text::push_char(text, fourcc[1] as char);
    crate::text::push_char(text, fourcc[2] as char);
    crate::text::push_char(text, fourcc[3] as char);
    assert(text@ =~= old(text)@ + fourcc_text(fourcc@));
}

impl CameraError {
    pub open spec fn text(self) -> Seq<char> {
        let number = |value: nat| crate::text::decimal(value);
        match self {
            CameraError::EmptyPayload => "V4L2 mmap: frame payload is empty"@,
            CameraError::ExceedsMapping { used, mapped } => "V4L2 mmap: bytesused "@ + number(
                used as nat,
            ) + " exceeds mapped buffer length "@ + number(mapped as nat),
            CameraError::UnsupportedFourcc { fourcc } => "unsupported V4L2 FourCC: "@ + fourcc_text(
                fourcc@,
            ),
            CameraError::ZeroDimensions { name, width, height } => "V4L2 "@ + name@
                + " dimensions must be nonzero, got "@ + size_text(width, height),
            CameraError::OutputOverflow { name } => "V4L2 "@ + name@ + " output size overflow"@,
            CameraError::OutputLimit { name, length } => "V4L2 "@ + name@
                + " output exceeds the 134217728-byte daemon limit: "@ + number(length as nat)
                + " bytes"@,
            CameraError::ZeroHeight => "V4L2 raw frame height is zero"@,
            CameraError::PayloadOverflow { name } => "V4L2 "@ + name@ + " payload size overflow"@,
            CameraError::PayloadLimit { name, required } => "V4L2 "@ + name@
                + " payload exceeds the 134217728-byte daemon limit: "@ + number(required as nat)
                + " bytes"@,
            CameraError::Truncated { name, used, required, negotiated } => "V4L2 "@ + name@
                + " payload is truncated: bytesused "@ + number(used as nat)
                + ", need at least "@ + number(required as nat) + " (sizeimage "@ + number(
                negotiated as nat,
            ) + ")"@,
            CameraError::OddWidth { width } => "V4L2 YUYV width "@ + number(width as nat)
                + " must be even"@,
            CameraError::RowOverflow { name } => "V4L2 "@ + name@ + " active row size overflow"@,
            CameraError::ZeroSizeImage { fourcc } => "V4L2 "@ + fourcc_text(fourcc@)
                + " sizeimage must be nonzero"@,
            CameraError::SizeImageLimit { size_image } =>
                "V4L2 sizeimage exceeds the 134217728-byte mapped-buffer limit: "@ + number(
                size_image as nat,
            ) + " bytes"@,
            CameraError::SizeImageTooSmall { name, size_image, required } => "V4L2 "@ + name@
                + " sizeimage "@ + number(size_image as nat)
                + " is smaller than the required payload "@ + number(required as nat),
            CameraError::EmptyEncoded => "V4L2 MJPEG encoded payload must be nonzero"@,
            CameraError::EncodedLimit { length } =>
                "V4L2 MJPEG encoded payload exceeds the 16777216-byte decoder limit: "@ + number(
                length as nat,
            ) + " bytes"@,
            CameraError::ZeroEncodedSizeImage => "V4L2 MJPEG sizeimage must be nonzero"@,
            CameraError::EncodedSizeImageLimit =>
                "V4L2 MJPEG negotiated sizeimage exceeds decoder envelope"@,
            CameraError::SizeImageEnvelope => "V4L2 MJPEG sizeimage exceeds decoder envelope"@,
            CameraError::ExceedsSizeImage { length, size_image } => "V4L2 MJPEG payload "@ + number(
                length as nat,
            ) + " exceeds negotiated sizeimage "@ + number(size_image as nat),
            CameraError::DimensionLimit { width, height } => "V4L2 MJPEG dimensions "@ + size_text(
                width,
                height,
            ) + " exceed the 4096-pixel per-axis decoder limit"@,
            CameraError::PixelLimit { pixels } => "V4L2 MJPEG pixel count "@ + number(pixels as nat)
                + " exceeds the 8847360-pixel decoder limit"@,
            CameraError::DimensionMismatch {
                width,
                height,
                negotiated_width,
                negotiated_height,
            } => "V4L2 mmap: MJPEG dimensions "@ + size_text(width, height)
                + " do not match negotiated dimensions "@ + size_text(
                negotiated_width,
                negotiated_height,
            ),
            CameraError::MalformedHeader => "V4L2 mmap: malformed MJPEG header"@,
            CameraError::DecodeFailed => "V4L2 mmap: MJPEG decode failed"@,
            CameraError::DecodedLength { actual, expected } =>
                "V4L2 mmap: decoded MJPEG data length "@ + number(actual as nat)
                + " does not match expected "@ + number(expected as nat),
            CameraError::UnsupportedColor { color } =>
                "V4L2 mmap: unsupported decoded MJPEG color type "@ + color@
                + "; expected L8 or RGB8"@,
        }
    }

    /// The error as a line of text.
    pub fn message(&self) -> (message: String)
        ensures
            message@ == self.text(),
    {
        let mut text = String::new();
        match self {
            CameraError::EmptyPayload => text.append("V4L2 mmap: frame payload is empty"),
            CameraError::ExceedsMapping { used, mapped } => {
                text.append("V4L2 mmap: bytesused ");
                push_decimal(&mut text, *used as u64);
                text.append(" exceeds mapped buffer length ");
                push_decimal(&mut text, *mapped as u64);
            },
            CameraError::UnsupportedFourcc { fourcc } => {
                text.append("unsupported V4L2 FourCC: ");
                push_fourcc(&mut text, *fourcc);
            },
            CameraError::ZeroDimensions { name, width, height } => {
                text.append("V4L2 ");
                text.append(name);
                text.append(" dimensions must be nonzero, got ");
                push_size(&mut text, *width, *height);
            },
            CameraError::OutputOverflow { name } => {
                text.append("V4L2 ");
                text.append(name);
                text.append(" output size overflow");
            },
            CameraError::OutputLimit { name, length } => {
                text.append("V4L2 ");
                text.append(name);
                text.append(" output exceeds the 134217728-byte daemon limit: ");
                push_decimal(&mut text, *length as u64);
                text.append(" bytes");
            },
            CameraError::ZeroHeight => text.append("V4L2 raw frame height is zero"),
            CameraError::PayloadOverflow { name } => {
                text.append("V4L2 ");
                text.append(name);
                text.append(" payload size overflow");
            },
            CameraError::PayloadLimit { name, required } => {
                text.append("V4L2 ");
                text.append(name);
                text.append(" payload exceeds the 134217728-byte daemon limit: ");
                push_decimal(&mut text, *required as u64);
                text.append(" bytes");
            },
            CameraError::Truncated { name, used, required, negotiated } => {
                text.append("V4L2 ");
                text.append(name);
                text.append(" payload is truncated: bytesused ");
                push_decimal(&mut text, *used as u64);
                text.append(", need at least ");
                push_decimal(&mut text, *required as u64);
                text.append(" (sizeimage ");
                push_decimal(&mut text, *negotiated as u64);
                text.append(")");
            },
            CameraError::OddWidth { width } => {
                text.append("V4L2 YUYV width ");
                push_decimal(&mut text, *width as u64);
                text.append(" must be even");
            },
            CameraError::RowOverflow { name } => {
                text.append("V4L2 ");
                text.append(name);
                text.append(" active row size overflow");
            },
            CameraError::ZeroSizeImage { fourcc } => {
                text.append("V4L2 ");
                push_fourcc(&mut text, *fourcc);
                text.append(" sizeimage must be nonzero");
            },
            CameraError::SizeImageLimit { size_image } => {
                text.append("V4L2 sizeimage exceeds the 134217728-byte mapped-buffer limit: ");
                push_decimal(&mut text, *size_image as u64);
                text.append(" bytes");
            },
            CameraError::SizeImageTooSmall { name, size_image, required } => {
                text.append("V4L2 ");
                text.append(name);
                text.append(" sizeimage ");
                push_decimal(&mut text, *size_image as u64);
                text.append(" is smaller than the required payload ");
                push_decimal(&mut text, *required as u64);
            },
            CameraError::EmptyEncoded => text.append("V4L2 MJPEG encoded payload must be nonzero"),
            CameraError::EncodedLimit { length } => {
                text.append("V4L2 MJPEG encoded payload exceeds the 16777216-byte decoder limit: ");
                push_decimal(&mut text, *length as u64);
                text.append(" bytes");
            },
            CameraError::ZeroEncodedSizeImage => text.append(
                "V4L2 MJPEG sizeimage must be nonzero",
            ),
            CameraError::EncodedSizeImageLimit => text.append(
                "V4L2 MJPEG negotiated sizeimage exceeds decoder envelope",
            ),
            CameraError::SizeImageEnvelope => text.append(
                "V4L2 MJPEG sizeimage exceeds decoder envelope",
            ),
            CameraError::ExceedsSizeImage { length, size_image } => {
                text.append("V4L2 MJPEG payload ");
                push_decimal(&mut text, *length as u64);
                text.append(" exceeds negotiated sizeimage ");
                push_decimal(&mut text, *size_image as u64);
            },
            CameraError::DimensionLimit { width, height } => {
                text.append("V4L2 MJPEG dimensions ");
                push_size(&mut text, *width, *height);
                text.append(" exceed the 4096-pixel per-axis decoder limit");
            },
            CameraError::PixelLimit { pixels } => {
                text.append("V4L2 MJPEG pixel count ");
                push_decimal(&mut text, *pixels as u64);
                text.append(" exceeds the 8847360-pixel decoder limit");
            },
            CameraError::DimensionMismatch {
                width,
                height,
                negotiated_width,
                negotiated_height,
            } => {
                text.append("V4L2 mmap: MJPEG dimensions ");
                push_size(&mut text, *width, *height);
                text.append(" do not match negotiated dimensions ");
                push_size(&mut text, *negotiated_width, *negotiated_height);
            },
            CameraError::MalformedHeader => text.append("V4L2 mmap: malformed MJPEG header"),
            CameraError::DecodeFailed => text.append("V4L2 mmap: MJPEG decode failed"),
            CameraError::DecodedLength { actual, expected } => {
                text.append("V4L2 mmap: decoded MJPEG data length ");
                push_decimal(&mut text, *actual as u64);
                text.append(" does not match expected ");
                push_decimal(&mut text, *expected as u64);
            },
            CameraError::UnsupportedColor { color } => {
                text.append("V4L2 mmap: unsupported decoded MJPEG color type ");
                text.append(color.as_str());
                text.append("; expected L8 or RGB8");
            },
        }
        assert(text@ =~= self.text());
        text
    }
}


/// A frame in blue, green, red order has three bytes for each pixel: those of a
/// frame in color as they are, and each gray value three times.
pub proof fn gray_becomes_equal_channels(frame: Frame, pixel: int, channel: int)
    requires
        0 <= pixel,
        0 <= channel < 3,
    ensures
        frame.format == FrameFormat::Bgr ==> frame.bgr() == frame.data@,
        frame.format == FrameFormat::Gray ==> frame.bgr().len() == 3 * frame.data@.len(),
        frame.format == FrameFormat::Gray && pixel < frame.data@.len() ==> frame.bgr()[3 * pixel
            + channel] == frame.data@[pixel],
{
}

} // verus!
