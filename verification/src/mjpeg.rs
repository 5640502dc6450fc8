//! Motion-JPEG frames: the decoder's envelope, and decoding into frames.
use crate::frame::{
    CameraError, Frame, FrameFormat, NegotiatedFormat, MAX_MJPEG_DIMENSION,
    MAX_MJPEG_ENCODED_BYTES, MAX_MJPEG_PIXELS, MAX_NORMALIZED_FRAME_BYTES,
};
use crate::raw::{checked_frame_len, dimension_error, frame_len, validate_dimensions};
use vstd::prelude::*;

verus! {

pub open spec fn encoded_error(length: usize) -> Option<CameraError> {
    if length == 0 {
        Some(CameraError::EmptyEncoded)
    } else if length > MAX_MJPEG_ENCODED_BYTES {
        Some(CameraError::EncodedLimit { length })
    } else {
        None
    }
}

pub fn validate_mjpeg_encoded_len(encoded_len: usize) -> (result: Result<(), CameraError>)
    ensures
        result == (match encoded_error(encoded_len) {
            Some(error) => Err(error),
            None => Ok(()),
        }),
{
    if encoded_len == 0 {
        return Err(CameraError::EmptyEncoded);
    }
    if encoded_len > MAX_MJPEG_ENCODED_BYTES {
        return Err(CameraError::EncodedLimit { length: encoded_len });
    }
    Ok(())
}

/// Both the payload and the negotiated size stay within the decoder's
/// envelope, and the payload within the negotiated size.
pub open spec fn mjpeg_payload_error(payload_len: usize, size_image: u32) -> Option<CameraError> {
    match encoded_error(payload_len) {
        Some(error) => Some(error),
        None => if size_image == 0 {
            Some(CameraError::ZeroEncodedSizeImage)
        } else if size_image > MAX_MJPEG_ENCODED_BYTES {
            Some(CameraError::EncodedSizeImageLimit)
        } else if payload_len > size_image {
            Some(
                CameraError::ExceedsSizeImage {
                    length: payload_len,
                    size_image: size_image as usize,
                },
            )
        } else {
            None
        },
    }
}

pub fn validate_mjpeg_payload_len(payload_len: usize, size_image: u32) -> (result: Result<
    (),
    CameraError,
>)
    ensures
        result == (match mjpeg_payload_error(payload_len, size_image) {
            Some(error) => Err(error),
            None => Ok(()),
        }),
{
    match validate_mjpeg_encoded_len(payload_len) {
        Err(error) => {
            return Err(error);
        },
        Ok(()) => {},
    }
    let size_image: usize = size_image as usize;
    if size_image == 0 {
        return Err(CameraError::ZeroEncodedSizeImage);
    }
    match validate_mjpeg_encoded_len(size_image) {
        Err(_) => {
            return Err(CameraError::EncodedSizeImageLimit);
        },
        Ok(()) => {},
    }
    if payload_len > size_image {
        return Err(CameraError::ExceedsSizeImage { length: payload_len, size_image });
    }
    Ok(())
}

/// Each side, the pixel count and the size in color stay within their limits.
pub open spec fn mjpeg_geometry_error(width: u32, height: u32) -> Option<CameraError> {
    match dimension_error(width, height, "MJPEG") {
        Some(error) => Some(error),
        None => if width > MAX_MJPEG_DIMENSION || height > MAX_MJPEG_DIMENSION {
            Some(CameraError::DimensionLimit { width, height })
        } else if width * height > MAX_MJPEG_PIXELS {
            Some(CameraError::PixelLimit { pixels: (width * height) as usize })
        } else {
            None
        },
    }
}

pub fn validate_mjpeg_geometry(width: u32, height: u32) -> (result: Result<(), CameraError>)
    ensures
        result == (match mjpeg_geometry_error(width, height) {
            Some(error) => Err(error),
            None => Ok(()),
        }),
{
    match validate_dimensions(width, height, "MJPEG") {
        Err(error) => {
            return Err(error);
        },
        Ok(()) => {},
    }
    if width > MAX_MJPEG_DIMENSION || height > MAX_MJPEG_DIMENSION {
        return Err(CameraError::DimensionLimit { width, height });
    }
    let columns: usize = width as usize;
    let rows: usize = height as usize;
    assert(columns * rows <= 4096 * 4096) by (nonlinear_arith)
        requires
            0 <= columns <= 4096,
            0 <= rows <= 4096,
    ;
    let pixels: usize = columns * rows;
    if pixels > MAX_MJPEG_PIXELS {
        return Err(CameraError::PixelLimit { pixels });
    }
    match checked_frame_len(width, height, 3, "MJPEG") {
        Err(error) => Err(error),
        Ok(_) => Ok(()),
    }
}

pub open spec fn mjpeg_dimension_error(
    width: u32,
    height: u32,
    negotiated_width: u32,
    negotiated_height: u32,
) -> Option<CameraError> {
    match mjpeg_geometry_error(width, height) {
        Some(error) => Some(error),
        None => if width != negotiated_width || height != negotiated_height {
            Some(
                CameraError::DimensionMismatch {
                    width,
                    height,
                    negotiated_width,
                    negotiated_height,
                },
            )
        } else {
            None
        },
    }
}

pub fn validate_mjpeg_dimensions(
    width: u32,
    height: u32,
    negotiated_width: u32,
    negotiated_height: u32,
) -> (result: Result<(), CameraError>)
    ensures
        result == (match mjpeg_dimension_error(width, height, negotiated_width, negotiated_height) {
            Some(error) => Err(error),
            None => Ok(()),
        }),
{
    match validate_mjpeg_geometry(width, height) {
        Err(error) => {
            return Err(error);
        },
        Ok(()) => {},
    }
    if width != negotiated_width || height != negotiated_height {
        return Err(
            CameraError::DimensionMismatch { width, height, negotiated_width, negotiated_height },
        );
    }
    Ok(())
}

/// The dimensions that the header of a JPEG file states, if it has one.
pub uninterp spec fn jpeg_header(bytes: Seq<u8>) -> Option<(u32, u32)>;

/// Reads the dimensions from a JPEG header.
///
/// Calls `image::ImageReader::with_format` for JPEG and
/// `ImageReader::into_dimensions`, which reads the header only. The result
/// depends on the bytes alone; an error becomes `None`.
#[verifier::external_body]
fn read_jpeg_header(payload: &[u8]) -> (dimensions: Option<(u32, u32)>)
    ensures
        dimensions == jpeg_header(payload@),
{
    image::ImageReader::with_format(std::io::Cursor::new(payload), image::ImageFormat::Jpeg)
        .into_dimensions()
        .ok()
}

/// Why a payload is not accepted for decoding, given what its header states.
pub open spec fn header_error(
    payload_len: usize,
    header: Option<(u32, u32)>,
    size_image: u32,
    negotiated_width: u32,
    negotiated_height: u32,
) -> Option<CameraError> {
    if payload_len == 0 {
        Some(CameraError::EmptyPayload)
    } else {
        match mjpeg_payload_error(payload_len, size_image) {
            Some(error) => Some(error),
            None => match mjpeg_geometry_error(negotiated_width, negotiated_height) {
                Some(error) => Some(error),
                None => match header {
                    None => Some(CameraError::MalformedHeader),
                    Some((width, height)) => mjpeg_dimension_error(
                        width,
                        height,
                        negotiated_width,
                        negotiated_height,
                    ),
                },
            },
        }
    }
}

/// Holds what a header states to what was negotiated.
pub fn check_mjpeg_header(
    header: Option<(u32, u32)>,
    negotiated_width: u32,
    negotiated_height: u32,
) -> (dimensions: Result<(u32, u32), CameraError>)
    ensures
        dimensions == (match header {
            None => Err(CameraError::MalformedHeader),
            Some((width, height)) => match mjpeg_dimension_error(
                width,
                height,
                negotiated_width,
                negotiated_height,
            ) {
                Some(error) => Err(error),
                None => Ok((width, height)),
            },
        }),
{
    match header {
        None => Err(CameraError::MalformedHeader),
        Some((width, height)) => {
            match validate_mjpeg_dimensions(width, height, negotiated_width, negotiated_height) {
                Err(error) => Err(error),
                Ok(()) => Ok((width, height)),
            }
        },
    }
}

/// Validates a payload as far as its header: no pixel is decoded for this.
pub fn validate_mjpeg_header(
    payload: &[u8],
    size_image: u32,
    negotiated_width: u32,
    negotiated_height: u32,
) -> (dimensions: Result<(u32, u32), CameraError>)
    ensures
        dimensions == (match header_error(
            payload@.len() as usize,
            jpeg_header(payload@),
            size_image,
            negotiated_width,
            negotiated_height,
        ) {
            Some(error) => Err(error),
            None => Ok(jpeg_header(payload@)->0),
        }),
{
    if payload.len() == 0 {
        return Err(CameraError::EmptyPayload);
    }
    match validate_mjpeg_payload_len(payload.len(), size_image) {
        Err(error) => {
            return Err(error);
        },
        Ok(()) => {},
    }
    match validate_mjpeg_geometry(negotiated_width, negotiated_height) {
        Err(error) => {
            return Err(error);
        },
        Ok(()) => {},
    }
    check_mjpeg_header(read_jpeg_header(payload), negotiated_width, negotiated_height)
}

/// A decoded image: its pixels where they are gray or RGB bytes, and otherwise
/// the name of its color type.
#[derive(Debug)]
pub enum DecodedImage {
    Luma8 { width: u32, height: u32, data: Vec<u8> },
    Rgb8 { width: u32, height: u32, data: Vec<u8> },
    Other { color: String },
}

/// What a decoded image holds.
pub enum Picture {
    Luma8 { width: u32, height: u32, data: Seq<u8> },
    Rgb8 { width: u32, height: u32, data: Seq<u8> },
    Other { color: Seq<char> },
}

impl View for DecodedImage {
    type V = Picture;

    open spec fn view(&self) -> Picture {
        match *self {
            DecodedImage::Luma8 { width, height, data } => Picture::Luma8 {
                width,
                height,
                data: data@,
            },
            DecodedImage::Rgb8 { width, height, data } => Picture::Rgb8 {
                width,
                height,
                data: data@,
            },
            DecodedImage::Other { color } => Picture::Other { color: color@ },
        }
    }
}

pub open spec fn picture(decoded: Option<DecodedImage>) -> Option<Picture> {
    match decoded {
        Some(image) => Some(image@),
        None => None,
    }
}

/// The picture that a JPEG file decodes to, under limits on its width, its
/// height and the decoder's allocations.
pub uninterp spec fn jpeg_picture(
    bytes: Seq<u8>,
    max_width: u32,
    max_height: u32,
    max_alloc: u64,
) -> Option<Picture>;

/// Decodes a JPEG file under the given limits.
///
/// Calls `image::ImageReader::with_format` for JPEG, `ImageReader::limits` and
/// `ImageReader::decode`, and moves the pixels out of the decoded image. The
/// result depends on the bytes and the limits alone; an error becomes `None`.
#[verifier::external_body]
fn decode_jpeg(payload: &[u8], max_width: u32, max_height: u32, max_alloc: u64) -> (decoded: Option<
    DecodedImage,
>)
    ensures
        picture(decoded) == jpeg_picture(payload@, max_width, max_height, max_alloc),
{
    let mut limits = image::Limits::default();
    limits.max_image_width = Some(max_width);
    limits.max_image_height = Some(max_height);
    limits.max_alloc = Some(max_alloc);
    let source = std::io::Cursor::new(payload);
    let mut reader = image::ImageReader::with_format(source, image::ImageFormat::Jpeg);
    reader.limits(limits);
    reader.decode().ok().map(|image| match image {
        image::DynamicImage::ImageLuma8(gray) =>
            DecodedImage::Luma8 { width: gray.width(), height: gray.height(), data: gray.into_raw() },
        image::DynamicImage::ImageRgb8(rgb) =>
            DecodedImage::Rgb8 { width: rgb.width(), height: rgb.height(), data: rgb.into_raw() },
        other => DecodedImage::Other { color: format!("{:?}", other.color()) },
    })
}

pub open spec fn decoded_length_error(actual: usize, expected: usize) -> Option<CameraError> {
    if actual == 0 || actual != expected {
        Some(CameraError::DecodedLength { actual, expected })
    } else {
        None
    }
}

pub fn validate_decoded_mjpeg_len(actual: usize, expected: usize) -> (result: Result<
    (),
    CameraError,
>)
    ensures
        result == (match decoded_length_error(actual, expected) {
            Some(error) => Err(error),
            None => Ok(()),
        }),
{
    if actual == 0 || actual != expected {
        return Err(CameraError::DecodedLength { actual, expected });
    }
    Ok(())
}

/// `data` with the first and third byte of every whole group of three swapped.
pub open spec fn swapped(data: Seq<u8>) -> Seq<u8> {
    Seq::new(
        data.len(),
        |i: int|
            if i - i % 3 + 3 > data.len() || i % 3 == 1 {
                data[i]
            } else if i % 3 == 0 {
                data[i + 2]
            } else {
                data[i - 2]
            },
    )
}

pub fn rgb_to_bgr_in_place(data: &mut [u8])
    ensures
        final(data)@ == swapped(old(data)@),
{
    let length: usize = data.len();
    let ghost before = data@;
    let mut at: usize = 0;
    while length - at >= 3
        invariant
            data@.len() == length,
            before.len() == length,
            at <= length,
            at % 3 == 0,
            forall|i: int| 0 <= i < at ==> #[trigger] data@[i] == swapped(before)[i],
            forall|i: int| at <= i < length ==> #[trigger] data@[i] == before[i],
        decreases length - at,
    {
        let first: u8 = data[at];
        let third: u8 = data[at + 2];
        data[at] = third;
        data[at + 2] = first;
        at = at + 3;
    }
    assert(data@ =~= swapped(before));
}

/// Swapping twice gives the pixels back.
pub proof fn swapping_twice_is_identity(data: Seq<u8>)
    ensures
        swapped(swapped(data)) == data,
{
    assert forall|i: int| 0 <= i < data.len() implies swapped(swapped(data))[i] == data[i] by {
        let group = i - i % 3;
        if group + 3 <= data.len() {
            assert((group + 2) % 3 == 2 && group % 3 == 0);
        }
    }
    assert(swapped(swapped(data)) =~= data);
}

/// Why a decoded picture is not the negotiated frame.
pub open spec fn picture_error(
    decoded: Picture,
    negotiated_width: u32,
    negotiated_height: u32,
) -> Option<CameraError> {
    match decoded {
        Picture::Luma8 { width, height, data } => match mjpeg_dimension_error(
            width,
            height,
            negotiated_width,
            negotiated_height,
        ) {
            Some(error) => Some(error),
            None => decoded_length_error(data.len() as usize, (width * height) as usize),
        },
        Picture::Rgb8 { width, height, data } => match mjpeg_dimension_error(
            width,
            height,
            negotiated_width,
            negotiated_height,
        ) {
            Some(error) => Some(error),
            None => decoded_length_error(data.len() as usize, (width * height * 3) as usize),
        },
        Picture::Other { .. } => None,
    }
}

/// `frame` is what a decoded picture becomes: gray stays, RGB is reordered, and
/// any other color type is refused.
pub open spec fn frame_of_picture(
    frame: Result<Frame, CameraError>,
    decoded: Picture,
    negotiated_width: u32,
    negotiated_height: u32,
) -> bool {
    match picture_error(decoded, negotiated_width, negotiated_height) {
        Some(error) => frame == Err::<Frame, CameraError>(error),
        None => match decoded {
            Picture::Luma8 { width, height, data } => frame matches Ok(gray) && gray.data@ == data
                && gray.width == width && gray.height == height && gray.format
                == FrameFormat::Gray,
            Picture::Rgb8 { width, height, data } => frame matches Ok(bgr) && bgr.data@ == swapped(
                data,
            ) && bgr.width == width && bgr.height == height && bgr.format == FrameFormat::Bgr,
            Picture::Other { color } => frame matches Err(CameraError::UnsupportedColor {
                color: named,
            }) && named@ == color,
        },
    }
}

pub fn decoded_mjpeg_to_frame(
    decoded: DecodedImage,
    negotiated_width: u32,
    negotiated_height: u32,
) -> (frame: Result<Frame, CameraError>)
    ensures
        frame_of_picture(frame, decoded@, negotiated_width, negotiated_height),
{
    match decoded {
        DecodedImage::Luma8 { width, height, data } => {
            match validate_mjpeg_dimensions(width, height, negotiated_width, negotiated_height) {
                Err(error) => {
                    return Err(error);
                },
                Ok(()) => {},
            }
            let expected: usize = match checked_frame_len(width, height, 1, "MJPEG grayscale") {
                Err(error) => {
                    return Err(error);
                },
                Ok(expected) => expected,
            };
            match validate_decoded_mjpeg_len(data.len(), expected) {
                Err(error) => {
                    return Err(error);
                },
                Ok(()) => {},
            }
            Ok(Frame { data, width, height, format: FrameFormat::Gray })
        },
        DecodedImage::Rgb8 { width, height, data } => {
            match validate_mjpeg_dimensions(width, height, negotiated_width, negotiated_height) {
                Err(error) => {
                    return Err(error);
                },
                Ok(()) => {},
            }
            let expected: usize = match checked_frame_len(width, height, 3, "MJPEG RGB") {
                Err(error) => {
                    return Err(error);
                },
                Ok(expected) => expected,
            };
            match validate_decoded_mjpeg_len(data.len(), expected) {
                Err(error) => {
                    return Err(error);
                },
                Ok(()) => {},
            }
            let mut pixels = data;
            rgb_to_bgr_in_place(pixels.as_mut_slice());
            Ok(Frame { data: pixels, width, height, format: FrameFormat::Bgr })
        },
        DecodedImage::Other { color } => Err(CameraError::UnsupportedColor { color }),
    }
}

/// Decodes a payload into a frame of the negotiated dimensions.
pub fn decode_mjpeg(payload: &[u8], format: &NegotiatedFormat) -> (frame: Result<
    Frame,
    CameraError,
>)
    ensures
        match header_error(
            payload@.len() as usize,
            jpeg_header(payload@),
            format.size,
            format.width,
            format.height,
        ) {
            Some(error) => frame == Err::<Frame, CameraError>(error),
            None => match jpeg_picture(
                payload@,
                format.width,
                format.height,
                MAX_NORMALIZED_FRAME_BYTES as u64,
            ) {
                None => frame == Err::<Frame, CameraError>(CameraError::DecodeFailed),
                Some(decoded) => frame_of_picture(frame, decoded, format.width, format.height),
            },
        },
{
    match validate_mjpeg_header(payload, format.size, format.width, format.height) {
        Err(error) => {
            return Err(error);
        },
        Ok(_) => {},
    }
    match decode_jpeg(
        payload,
        format.width,
        format.height,
        MAX_NORMALIZED_FRAME_BYTES as u64,
    ) {
        None => Err(CameraError::DecodeFailed),
        Some(decoded) => decoded_mjpeg_to_frame(decoded, format.width, format.height),
    }
}


/// A decoded picture becomes a frame exactly where it has the negotiated width and
/// height, which have pixels within their limits, and one byte for each gray pixel
/// or three for each in color. Gray values stay, and in color the first and the
/// third byte of every pixel change places.
pub proof fn decoded_pictures_keep_their_pixels(
    frame: Result<Frame, CameraError>,
    decoded: Picture,
    negotiated_width: u32,
    negotiated_height: u32,
    pixel: int,
)
    requires
        frame_of_picture(frame, decoded, negotiated_width, negotiated_height),
    ensures
        frame is Ok <==> {
            &&& 0 < negotiated_width <= 4096 && 0 < negotiated_height <= 4096
            &&& negotiated_width * negotiated_height <= 8847360
            &&& match decoded {
                Picture::Luma8 { width, height, data } => width == negotiated_width && height
                    == negotiated_height && data.len() as usize == width * height,
                Picture::Rgb8 { width, height, data } => width == negotiated_width && height
                    == negotiated_height && data.len() as usize == 3 * (width * height),
                Picture::Other { .. } => false,
            }
        },
        frame matches Ok(made) ==> made.width == negotiated_width && made.height
            == negotiated_height && match decoded {
            Picture::Luma8 { data, .. } => made.format == FrameFormat::Gray && made.data@ == data,
            Picture::Rgb8 { data, .. } => {
                &&& made.format == FrameFormat::Bgr
                &&& made.data@.len() == data.len()
                &&& 0 <= pixel && 3 * pixel + 2 < data.len() ==> made.data@[3 * pixel] == data[3
                    * pixel + 2] && made.data@[3 * pixel + 1] == data[3 * pixel + 1]
                    && made.data@[3 * pixel + 2] == data[3 * pixel]
            },
            Picture::Other { .. } => false,
        },
{
    match decoded {
        Picture::Rgb8 { width, height, data } => {
            assert(width * height * 3 == 3 * (width * height)) by (nonlinear_arith);
            if width <= 4096 && height <= 4096 {
                assert(0 <= width * height <= 16777216) by (nonlinear_arith)
                    requires
                        width <= 4096,
                        height <= 4096,
                ;
            }
            if 0 < width && 0 < height {
                assert(0 < width * height) by (nonlinear_arith)
                    requires
                        0 < width,
                        0 < height,
                ;
            }
        },
        Picture::Luma8 { width, height, data } => {
            if width <= 4096 && height <= 4096 {
                assert(0 <= width * height <= 16777216) by (nonlinear_arith)
                    requires
                        width <= 4096,
                        height <= 4096,
                ;
            }
            if 0 < width && 0 < height {
                assert(0 < width * height) by (nonlinear_arith)
                    requires
                        0 < width,
                        0 < height,
                ;
            }
        },
        Picture::Other { .. } => {},
    }
}


/// A compressed picture is decoded exactly where there is one, it is no longer than was
/// announced, the negotiated size is within the limits, and its header says that size.
pub proof fn decoded_headers_say_what_was_negotiated(
    length: usize,
    header: Option<(u32, u32)>,
    size_image: u32,
    width: u32,
    height: u32,
)
    ensures
        header_error(length, header, size_image, width, height) is None <==> {
            &&& 0 < length <= size_image <= 16777216
            &&& 0 < width <= 4096 && 0 < height <= 4096 && width * height <= 8847360
            &&& header == Some((width, height))
        },
{
}


/// A size is refused with what is wrong with it: that a side is missing or too long, or
/// how many pixels there would be.
pub proof fn refused_sizes_say_why(width: u32, height: u32)
    ensures
        mjpeg_geometry_error(width, height) is None <==> 0 < width <= 4096 && 0 < height <= 4096
            && width * height <= 8847360,
        width > 0 && height > 0 && (width > 4096 || height > 4096) ==> mjpeg_geometry_error(
            width,
            height,
        ) == Some(CameraError::DimensionLimit { width, height }),
        0 < width <= 4096 && 0 < height <= 4096 && width * height > 8847360 ==> (
        mjpeg_geometry_error(width, height) matches Some(CameraError::PixelLimit { pixels })
            && pixels == width * height),
{
    assert(width <= 4096 && height <= 4096 ==> width * height <= 16777216) by (nonlinear_arith);
}

} // verus!
