//! What surrounds the numbers of face detection: which pixel of a frame goes
//! where in the network's input, which outputs are candidates, and which
//! candidates are the same face.
use crate::float_bits::{
    at_most32, finite32, is_at_most32, is_less32, rank32, zero32,
};
use crate::order::{is_order, order_by, strict_total};
use vstd::prelude::*;

verus! {

/// `normalize` is a function that turns a byte into the bits that `value` says.
pub open spec fn normalizes<F: Fn(u8) -> u32>(normalize: F, value: spec_fn(u8) -> u32) -> bool {
    forall|byte: u8, bits: u32| #[trigger]
        call_ensures(normalize, (byte,), bits) ==> bits == value(byte)
}

/// A frame and the input that it is scaled into. `columns` and `rows` say which
/// column and row of the frame each column and row of the picture comes from;
/// the rest of the input is padding.
pub struct Scaling {
    pub src: Seq<u8>,
    pub src_w: int,
    pub src_h: int,
    pub det_w: int,
    pub det_h: int,
    pub is_gray: bool,
    pub columns: Seq<usize>,
    pub rows: Seq<usize>,
}

/// A frame that is as wide as the input is not scaled.
pub open spec fn is_identity(scaling: Scaling) -> bool {
    scaling.src_w == scaling.det_w && scaling.columns.len() == scaling.det_w
}

/// A position, kept below a limit.
pub open spec fn clamped(position: int, limit: int) -> int {
    if position < limit {
        position
    } else {
        limit - 1
    }
}

/// The column of the frame that a column of the picture shows.
pub open spec fn source_column(scaling: Scaling, x: int) -> int {
    if is_identity(scaling) {
        x
    } else {
        clamped(scaling.columns[x] as int, scaling.src_w)
    }
}

/// The row of the frame that a row of the picture shows.
pub open spec fn source_row(scaling: Scaling, y: int) -> int {
    if is_identity(scaling) {
        y
    } else {
        clamped(scaling.rows[y] as int, scaling.src_h)
    }
}

/// Where a byte of the frame stands. A gray frame has one for all planes; a
/// frame in color has three for each pixel, in the opposite order of the planes.
pub open spec fn source_index(scaling: Scaling, plane: int, x: int, y: int) -> int {
    let pixel = source_row(scaling, y) * scaling.src_w + source_column(scaling, x);
    if scaling.is_gray {
        pixel
    } else {
        pixel * 3 + (2 - plane)
    }
}

/// A value of the input: three planes, each row by row.
pub open spec fn input_value(
    scaling: Scaling,
    value: spec_fn(u8) -> u32,
    pad: u32,
    at: int,
) -> u32 {
    let size = scaling.det_w * scaling.det_h;
    let plane = at / size;
    let within = at % size;
    let y = within / scaling.det_w;
    let x = within % scaling.det_w;
    if y < scaling.rows.len() && x < scaling.columns.len() {
        value(scaling.src[source_index(scaling, plane, x, y)])
    } else {
        pad
    }
}

/// An input holds a frame, and nothing else.
pub open spec fn is_input(
    input: Seq<u32>,
    scaling: Scaling,
    value: spec_fn(u8) -> u32,
    pad: u32,
) -> bool {
    &&& input.len() == 3 * (scaling.det_w * scaling.det_h)
    &&& forall|at: int|
        0 <= at < input.len() ==> #[trigger] input[at] == input_value(scaling, value, pad, at)
}

/// A frame fits what is said of it: it has as many bytes as its dimensions call
/// for, and the picture fits the input.
pub open spec fn is_scalable(scaling: Scaling) -> bool {
    &&& 0 < scaling.src_w && 0 < scaling.src_h && 0 < scaling.det_w && 0 < scaling.det_h
    &&& scaling.src_w * scaling.src_h * (if scaling.is_gray {
        1int
    } else {
        3
    }) <= scaling.src.len()
    &&& scaling.columns.len() <= scaling.det_w
    &&& scaling.rows.len() <= scaling.det_h
    &&& (is_identity(scaling) ==> scaling.rows.len() <= scaling.src_h)
}

proof fn sources_are_in_range(scaling: Scaling, plane: int, x: int, y: int)
    requires
        is_scalable(scaling),
        0 <= plane < 3,
        0 <= x < scaling.columns.len(),
        0 <= y < scaling.rows.len(),
    ensures
        0 <= source_index(scaling, plane, x, y) < scaling.src.len(),
        0 <= source_column(scaling, x) < scaling.src_w,
        0 <= source_row(scaling, y) < scaling.src_h,
        0 <= source_row(scaling, y) * scaling.src_w <= source_row(scaling, y) * scaling.src_w
            + source_column(scaling, x) < scaling.src.len(),
{
    let row = source_row(scaling, y);
    let column = source_column(scaling, x);
    let width = scaling.src_w;
    let height = scaling.src_h;
    assert(0 <= row * width && row * width + column < width * height) by (nonlinear_arith)
        requires
            0 <= row < height,
            0 <= column < width,
    ;
    let pixel = row * width + column;
    if !scaling.is_gray {
        assert(width * height * 3 == 3 * (width * height)) by (nonlinear_arith);
    } else {
        assert(width * height * 1 == width * height) by (nonlinear_arith);
    }
}

/// Fills the network's input from a frame. Where each column and row of the
/// picture comes from is given; positions beyond the frame mean its last column
/// or row. `normalize` gives the bits of a byte's value, and `pad` those of the
/// padding.
pub fn preprocess_detection_into<F: Fn(u8) -> u32>(
    dst: &mut Vec<u32>,
    src: &[u8],
    src_w: usize,
    src_h: usize,
    det_w: usize,
    det_h: usize,
    is_gray: bool,
    columns: &Vec<usize>,
    rows: &Vec<usize>,
    normalize: &F,
    pad: u32,
)
    requires
        forall|byte: u8| #[trigger] call_requires(*normalize, (byte,)),
        is_scalable(
            (Scaling {
                src: src@,
                src_w: src_w as int,
                src_h: src_h as int,
                det_w: det_w as int,
                det_h: det_h as int,
                is_gray,
                columns: columns@,
                rows: rows@,
            }),
        ),
        old(dst)@.len() == 3 * (det_w * det_h),
    ensures
        final(dst)@.len() == old(dst)@.len(),
        forall|value: spec_fn(u8) -> u32| #[trigger]
            normalizes(*normalize, value) ==> is_input(
                final(dst)@,
                (Scaling {
                    src: src@,
                    src_w: src_w as int,
                    src_h: src_h as int,
                    det_w: det_w as int,
                    det_h: det_h as int,
                    is_gray,
                    columns: columns@,
                    rows: rows@,
                }),
                value,
                pad,
            ),
{
    let ghost scaling = Scaling {
        src: src@,
        src_w: src_w as int,
        src_h: src_h as int,
        det_w: det_w as int,
        det_h: det_h as int,
        is_gray,
        columns: columns@,
        rows: rows@,
    };
    let total: usize = dst.len();
    proof {
        assert(0 < det_w * det_h) by (nonlinear_arith)
            requires
                0 < det_w,
                0 < det_h,
        ;
    }
    let size: usize = det_w * det_h;
    let identity: bool = src_w == det_w && columns.len() == det_w;
    let source_len: usize = src.len();
    let mut at: usize = 0;
    while at < total
        invariant
            source_len == src@.len(),
            at <= total,
            total == 3 * size,
            size == det_w * det_h,
            0 < size,
            0 < det_w,
            dst@.len() == total,
            scaling == (Scaling {
                src: src@,
                src_w: src_w as int,
                src_h: src_h as int,
                det_w: det_w as int,
                det_h: det_h as int,
                is_gray,
                columns: columns@,
                rows: rows@,
            }),
            is_scalable(scaling),
            identity == is_identity(scaling),
            forall|byte: u8| #[trigger] call_requires(*normalize, (byte,)),
            forall|value: spec_fn(u8) -> u32| #[trigger]
                normalizes(*normalize, value) ==> forall|i: int|
                    0 <= i < at ==> #[trigger] dst@[i] == input_value(scaling, value, pad, i),
        decreases total - at,
    {
        let plane: usize = at / size;
        let within: usize = at % size;
        let y: usize = within / det_w;
        let x: usize = within % det_w;
        proof {
            assert((at as int) / (size as int) < 3) by (nonlinear_arith)
                requires
                    at < 3 * size,
                    size > 0,
            ;
        }
        let bits: u32 = if y < rows.len() && x < columns.len() {
            let column: usize = if identity {
                x
            } else if columns[x] < src_w {
                columns[x]
            } else {
                src_w - 1
            };
            let row: usize = if identity {
                y
            } else if rows[y] < src_h {
                rows[y]
            } else {
                src_h - 1
            };
            proof {
                sources_are_in_range(scaling, plane as int, x as int, y as int);
            }
            assert(column == source_column(scaling, x as int));
            assert(row == source_row(scaling, y as int));
            let pixel: usize = row * src_w + column;
            let index: usize = if is_gray {
                pixel
            } else {
                pixel * 3 + (2 - plane)
            };
            normalize(src[index])
        } else {
            pad
        };
        dst.set(at, bits);
        at = at + 1;
    }
}

/// What a frame is turned into does not depend on what the input held before: two
/// inputs of one frame are equal.
pub proof fn inputs_of_a_frame_are_equal(
    first: Seq<u32>,
    second: Seq<u32>,
    scaling: Scaling,
    value: spec_fn(u8) -> u32,
    pad: u32,
)
    requires
        is_input(first, scaling, value, pad),
        is_input(second, scaling, value, pad),
    ensures
        first == second,
{
    assert(first =~= second);
}

/// The three planes of a gray frame are equal.
pub proof fn planes_of_a_gray_frame_are_equal(
    input: Seq<u32>,
    scaling: Scaling,
    value: spec_fn(u8) -> u32,
    pad: u32,
    within: int,
)
    requires
        scaling.is_gray,
        is_input(input, scaling, value, pad),
        0 <= within < scaling.det_w * scaling.det_h,
    ensures
        input[within] == input[scaling.det_w * scaling.det_h + within],
        input[within] == input[2 * (scaling.det_w * scaling.det_h) + within],
{
    let size = scaling.det_w * scaling.det_h;
    vstd::arithmetic::div_mod::lemma_fundamental_div_mod_converse(within, size, 0, within);
    vstd::arithmetic::div_mod::lemma_fundamental_div_mod_converse(size + within, size, 1, within);
    vstd::arithmetic::div_mod::lemma_fundamental_div_mod_converse(
        2 * size + within,
        size,
        2,
        within,
    );
    assert(input[within] == input_value(scaling, value, pad, within));
    assert(input[size + within] == input_value(scaling, value, pad, size + within));
    assert(input[2 * size + within] == input_value(scaling, value, pad, 2 * size + within));
}

/// Whatever holds of the padding and of the value of every byte, such as lying
/// within the range of the network's input, holds of all of an input.
pub proof fn inputs_stay_in_range(
    input: Seq<u32>,
    scaling: Scaling,
    value: spec_fn(u8) -> u32,
    pad: u32,
    in_range: spec_fn(u32) -> bool,
)
    requires
        is_input(input, scaling, value, pad),
        in_range(pad),
        forall|byte: u8| in_range(#[trigger] value(byte)),
    ensures
        forall|at: int| 0 <= at < input.len() ==> in_range(#[trigger] input[at]),
{
}

/// A cell of the input, by plane, row and column, shows the pixel that its column
/// and row are taken from, kept within the frame, or the padding beyond the
/// picture. A frame in color has its bytes in the order blue, green, red, and the
/// planes are red, green, blue.
pub proof fn inputs_show_the_frame(
    input: Seq<u32>,
    scaling: Scaling,
    value: spec_fn(u8) -> u32,
    pad: u32,
    plane: int,
    x: int,
    y: int,
)
    requires
        is_input(input, scaling, value, pad),
        is_scalable(scaling),
        0 <= plane < 3,
        0 <= x < scaling.det_w,
        0 <= y < scaling.det_h,
    ensures
        ({
            let cell = (plane * scaling.det_h + y) * scaling.det_w + x;
            let tight = scaling.src_w == scaling.det_w && scaling.columns.len() == scaling.det_w;
            let column = if tight {
                x
            } else if scaling.columns[x] >= scaling.src_w {
                scaling.src_w - 1
            } else {
                scaling.columns[x] as int
            };
            let row = if tight {
                y
            } else if scaling.rows[y] >= scaling.src_h {
                scaling.src_h - 1
            } else {
                scaling.rows[y] as int
            };
            let pixel = row * scaling.src_w + column;
            &&& 0 <= cell < input.len()
            &&& x >= scaling.columns.len() || y >= scaling.rows.len() ==> input[cell] == pad
            &&& x < scaling.columns.len() && y < scaling.rows.len() && scaling.is_gray
                ==> input[cell] == value(scaling.src[pixel])
            &&& x < scaling.columns.len() && y < scaling.rows.len() && !scaling.is_gray
                ==> input[cell] == value(scaling.src[3 * pixel + (if plane == 0 {
                2int
            } else if plane == 1 {
                1
            } else {
                0
            })])
        }),
{
    let size = scaling.det_w * scaling.det_h;
    let within = y * scaling.det_w + x;
    let cell = (plane * scaling.det_h + y) * scaling.det_w + x;
    assert(0 <= within < size) by (nonlinear_arith)
        requires
            0 <= x < scaling.det_w,
            0 <= y < scaling.det_h,
            within == y * scaling.det_w + x,
            size == scaling.det_w * scaling.det_h,
    ;
    assert(cell == plane * size + within) by (nonlinear_arith)
        requires
            cell == (plane * scaling.det_h + y) * scaling.det_w + x,
            within == y * scaling.det_w + x,
            size == scaling.det_w * scaling.det_h,
    ;
    assert(plane * size <= 2 * size) by (nonlinear_arith)
        requires
            0 <= plane <= 2,
            0 <= size,
    ;
    assert(0 <= plane * size) by (nonlinear_arith)
        requires
            0 <= plane,
            0 <= size,
    ;
    vstd::arithmetic::div_mod::lemma_fundamental_div_mod_converse(cell, size, plane, within);
    vstd::arithmetic::div_mod::lemma_fundamental_div_mod_converse(within, scaling.det_w, y, x);
    assert(input[cell] == input_value(scaling, value, pad, cell));
}

/// The four pixels round a point, in one channel.
#[derive(Clone, Copy, Debug, PartialEq, Eq, Structural)]
pub struct Corners {
    pub left_top: u8,
    pub right_top: u8,
    pub left_bottom: u8,
    pub right_bottom: u8,
}

/// `position` is a function that gives the places that `place` says.
pub open spec fn places<P: Fn(usize, usize) -> (i32, i32)>(
    position: P,
    place: spec_fn(usize, usize) -> (i32, i32),
) -> bool {
    forall|x: usize, y: usize, at: (i32, i32)| #[trigger]
        call_ensures(position, (x, y), at) ==> at == place(x, y)
}

/// `blend` is a function that gives the bits that `value` says.
pub open spec fn blends<B: Fn(Corners, usize, usize) -> u32>(
    blend: B,
    value: spec_fn(Corners, usize, usize) -> u32,
) -> bool {
    forall|corners: Corners, x: usize, y: usize, bits: u32| #[trigger]
        call_ensures(blend, (corners, x, y), bits) ==> bits == value(corners, x, y)
}

/// A frame as bytes.
pub struct Source {
    pub bytes: Seq<u8>,
    pub width: int,
    pub height: int,
    pub is_gray: bool,
}

/// A frame has as many bytes as its dimensions call for.
pub open spec fn is_source(source: Source) -> bool {
    &&& 0 <= source.width <= i32::MAX && 0 <= source.height <= i32::MAX
    &&& source.width * source.height * (if source.is_gray {
        1int
    } else {
        3
    }) <= source.bytes.len()
}

/// Where a pixel's byte for a plane stands.
pub open spec fn pixel_index(source: Source, plane: int, x: int, y: int) -> int {
    if source.is_gray {
        y * source.width + x
    } else {
        (y * source.width + x) * 3 + (2 - plane)
    }
}

/// The pixels round a place, of which the left top one is given.
pub open spec fn corners_at(source: Source, plane: int, x: int, y: int) -> Corners {
    Corners {
        left_top: source.bytes[pixel_index(source, plane, x, y)],
        right_top: source.bytes[pixel_index(source, plane, x + 1, y)],
        left_bottom: source.bytes[pixel_index(source, plane, x, y + 1)],
        right_bottom: source.bytes[pixel_index(source, plane, x + 1, y + 1)],
    }
}

/// A value of the recognizer's input: three planes of 112 by 112. A point whose
/// four pixels are not all in the frame has the default.
pub open spec fn aligned_value(
    source: Source,
    place: spec_fn(usize, usize) -> (i32, i32),
    value: spec_fn(Corners, usize, usize) -> u32,
    default: u32,
    at: int,
) -> u32 {
    let plane = at / 12544;
    let x = (at % 12544 % 112) as usize;
    let y = (at % 12544 / 112) as usize;
    let (left, top) = place(x, y);
    if 0 <= left && left + 1 < source.width && 0 <= top && top + 1 < source.height {
        value(corners_at(source, plane, left as int, top as int), x, y)
    } else {
        default
    }
}

proof fn pixels_are_in_range(source: Source, plane: int, x: int, y: int)
    requires
        is_source(source),
        0 <= plane < 3,
        0 <= x < source.width,
        0 <= y < source.height,
    ensures
        0 <= y * source.width,
        y * source.width + x < source.bytes.len(),
        0 <= pixel_index(source, plane, x, y) < source.bytes.len(),
        !source.is_gray ==> (y * source.width + x) * 3 + 2 < source.bytes.len(),
{
    let width = source.width;
    let height = source.height;
    assert(0 <= y * width && y * width + x < width * height) by (nonlinear_arith)
        requires
            0 <= y < height,
            0 <= x < width,
    ;
    if source.is_gray {
        assert(width * height * 1 == width * height) by (nonlinear_arith);
    } else {
        assert(width * height * 3 == 3 * (width * height)) by (nonlinear_arith);
    }
}

fn source_byte(src: &[u8], width: usize, height: usize, is_gray: bool, plane: usize, x: usize, y: usize) -> (byte:
    u8)
    requires
        is_source(
            (Source { bytes: src@, width: width as int, height: height as int, is_gray }),
        ),
        plane < 3,
        x < width,
        y < height,
    ensures
        byte == src@[pixel_index(
            (Source { bytes: src@, width: width as int, height: height as int, is_gray }),
            plane as int,
            x as int,
            y as int,
        )],
{
    let ghost source = Source {
        bytes: src@,
        width: width as int,
        height: height as int,
        is_gray,
    };
    let source_len: usize = src.len();
    proof {
        pixels_are_in_range(source, plane as int, x as int, y as int);
        assert(source_len == src@.len());
    }
    let pixel: usize = y * width + x;
    if is_gray {
        src[pixel]
    } else {
        src[pixel * 3 + (2 - plane)]
    }
}

/// Fills the recognizer's input from a frame: `position` gives the pixel to the
/// left of and above the point that a value is taken from, and `blend` the bits
/// of a value from the pixels round that point.
pub fn align_and_preprocess_recognition<
    P: Fn(usize, usize) -> (i32, i32),
    B: Fn(Corners, usize, usize) -> u32,
>(
    dst: &mut Vec<u32>,
    src: &[u8],
    width: usize,
    height: usize,
    is_gray: bool,
    position: &P,
    blend: &B,
    default: u32,
)
    requires
        forall|x: usize, y: usize| #[trigger] call_requires(*position, (x, y)),
        forall|corners: Corners, x: usize, y: usize| #[trigger]
            call_requires(*blend, (corners, x, y)),
        is_source(
            (Source { bytes: src@, width: width as int, height: height as int, is_gray }),
        ),
        old(dst)@.len() == 37632,
    ensures
        final(dst)@.len() == 37632,
        forall|
            place: spec_fn(usize, usize) -> (i32, i32),
            value: spec_fn(Corners, usize, usize) -> u32,
        | #[trigger]
            places(*position, place) && #[trigger] blends(*blend, value) ==> forall|at: int|
                0 <= at < 37632 ==> #[trigger] final(dst)@[at] == aligned_value(
                    (Source { bytes: src@, width: width as int, height: height as int, is_gray }),
                    place,
                    value,
                    default,
                    at,
                ),
{
    let ghost source = Source {
        bytes: src@,
        width: width as int,
        height: height as int,
        is_gray,
    };
    let mut at: usize = 0;
    while at < 37632
        invariant
            at <= 37632,
            dst@.len() == 37632,
            source == (Source {
                bytes: src@,
                width: width as int,
                height: height as int,
                is_gray,
            }),
            is_source(source),
            forall|x: usize, y: usize| #[trigger] call_requires(*position, (x, y)),
            forall|corners: Corners, x: usize, y: usize| #[trigger]
                call_requires(*blend, (corners, x, y)),
            forall|
                place: spec_fn(usize, usize) -> (i32, i32),
                value: spec_fn(Corners, usize, usize) -> u32,
            | #[trigger]
                places(*position, place) && #[trigger] blends(*blend, value) ==> forall|i: int|
                    0 <= i < at ==> #[trigger] dst@[i] == aligned_value(
                        source,
                        place,
                        value,
                        default,
                        i,
                    ),
        decreases 37632 - at,
    {
        let plane: usize = at / 12544;
        let x: usize = at % 12544 % 112;
        let y: usize = at % 12544 / 112;
        let (left, top) = position(x, y);
        let bits: u32 = if 0 <= left && 0 <= top && left < i32::MAX && top < i32::MAX && ((left + 1) as usize) < width && ((top + 1) as usize) < height {
            let column: usize = left as usize;
            let row: usize = top as usize;
            let corners = Corners {
                left_top: source_byte(src, width, height, is_gray, plane, column, row),
                right_top: source_byte(src, width, height, is_gray, plane, column + 1, row),
                left_bottom: source_byte(src, width, height, is_gray, plane, column, row + 1),
                right_bottom: source_byte(src, width, height, is_gray, plane, column + 1, row + 1),
            };
            assert(corners == corners_at(source, plane as int, left as int, top as int));
            blend(corners, x, y)
        } else {
            default
        };
        dst.set(at, bits);
        at = at + 1;
    }
}

/// A value of the recognizer's input, by plane, row and column, is blended from the
/// four pixels round the point that it is taken from, where all four are in the
/// frame, and is the default elsewhere. A frame in color has its bytes in the order
/// blue, green, red, and the planes are red, green, blue.
pub proof fn aligned_inputs_blend_four_pixels(
    input: Seq<u32>,
    source: Source,
    place: spec_fn(usize, usize) -> (i32, i32),
    value: spec_fn(Corners, usize, usize) -> u32,
    default: u32,
    plane: int,
    x: usize,
    y: usize,
)
    requires
        is_source(source),
        forall|at: int|
            0 <= at < 37632 ==> #[trigger] input[at] == aligned_value(
                source,
                place,
                value,
                default,
                at,
            ),
        0 <= plane < 3,
        x < 112,
        y < 112,
    ensures
        ({
            let cell = (plane * 112 + y) * 112 + x;
            let left = place(x, y).0 as int;
            let top = place(x, y).1 as int;
            let apart = if source.is_gray {
                1int
            } else {
                3
            };
            let channel = if source.is_gray {
                0int
            } else {
                2 - plane
            };
            let first = apart * (top * source.width + left) + channel;
            let below = apart * ((top + 1) * source.width + left) + channel;
            if left < 0 || top < 0 || left + 2 > source.width || top + 2 > source.height {
                input[cell] == default
            } else {
                &&& 0 <= first && first + apart < source.bytes.len()
                &&& 0 <= below && below + apart < source.bytes.len()
                &&& input[cell] == value(
                    (Corners {
                        left_top: source.bytes[first],
                        right_top: source.bytes[first + apart],
                        left_bottom: source.bytes[below],
                        right_bottom: source.bytes[below + apart],
                    }),
                    x,
                    y,
                )
            }
        }),
{
    let cell = (plane * 112 + y) * 112 + x;
    let within = y * 112 + x;
    assert(cell == plane * 12544 + within);
    assert(cell / 12544 == plane && cell % 12544 == within);
    assert(within % 112 == x && within / 112 == y);
    assert(input[cell] == aligned_value(source, place, value, default, cell));
    let left = place(x, y).0 as int;
    let top = place(x, y).1 as int;
    if !(left < 0 || top < 0 || left + 2 > source.width || top + 2 > source.height) {
        pixels_are_in_range(source, plane, left, top);
        pixels_are_in_range(source, plane, left + 1, top);
        pixels_are_in_range(source, plane, left, top + 1);
        pixels_are_in_range(source, plane, left + 1, top + 1);
    }
}

/// A place in the detector's output where a face may be.
#[derive(Clone, Copy, Debug, PartialEq, Eq, Structural)]
pub struct Candidate {
    /// The place of the anchor among the scores.
    pub index: usize,
    pub cell_x: usize,
    pub cell_y: usize,
    pub score: u32,
}

/// Whether a score makes its anchor a candidate: it is above the threshold, and
/// the anchor belongs to a cell that there is.
pub open spec fn is_candidate(scores: Seq<u32>, at: int, threshold: u32, cells: int) -> bool {
    !at_most32(scores[at], threshold) && at / 2 < cells
}

/// The candidates among the first `count` scores.
pub open spec fn candidates_of(
    scores: Seq<u32>,
    count: nat,
    threshold: u32,
    fmap_w: usize,
    fmap_h: usize,
) -> Seq<Candidate>
    decreases count,
{
    if count == 0 {
        Seq::empty()
    } else {
        let at = count - 1;
        let before = candidates_of(scores, at as nat, threshold, fmap_w, fmap_h);
        if is_candidate(scores, at, threshold, fmap_w * fmap_h) {
            before.push(
                Candidate {
                    index: at as usize,
                    cell_x: (at / 2 % fmap_w as int) as usize,
                    cell_y: (at / 2 / fmap_w as int) as usize,
                    score: scores[at],
                },
            )
        } else {
            before
        }
    }
}

/// The candidates at one stride. There are two anchors for each cell of the
/// detector's map, which is `fmap_w` by `fmap_h` cells.
pub fn scrfd_candidates(scores: &[u32], threshold: u32, fmap_w: usize, fmap_h: usize) -> (candidates:
    Vec<Candidate>)
    requires
        0 < fmap_w,
        fmap_w * fmap_h <= usize::MAX,
    ensures
        candidates@ == candidates_of(scores@, scores@.len(), threshold, fmap_w, fmap_h),
{
    let cells: usize = fmap_w * fmap_h;
    let mut candidates: Vec<Candidate> = Vec::new();
    let mut index: usize = 0;
    while index < scores.len()
        invariant
            index <= scores@.len(),
            0 < fmap_w,
            cells == fmap_w * fmap_h,
            candidates@ == candidates_of(scores@, index as nat, threshold, fmap_w, fmap_h),
        decreases scores.len() - index,
    {
        let score: u32 = scores[index];
        let cell: usize = index / 2;
        if !is_at_most32(score, threshold) && cell < cells {
            candidates.push(
                Candidate { index, cell_x: cell % fmap_w, cell_y: cell / fmap_w, score },
            );
        }
        index = index + 1;
    }
    candidates
}

/// The anchors at one stride of a map that is `det_w` by `det_h`.
pub open spec fn stride_anchors(det_w: u32, det_h: u32, stride: int) -> int {
    (det_w as int / stride) * (det_h as int / stride) * 2
}

/// The anchors at all strides, the most candidates that there can be; `None`
/// where they cannot be counted.
pub fn scrfd_candidate_capacity(det_w: u32, det_h: u32) -> (capacity: Option<usize>)
    ensures
        ({
            let anchors = stride_anchors(det_w, det_h, 8) + stride_anchors(det_w, det_h, 16) + stride_anchors(
                det_w,
                det_h,
                32,
            );
            match capacity {
                Some(count) => count == anchors,
                None => anchors > usize::MAX,
            }
        }),
{
    let first: u64 = anchors(det_w, det_h, 8);
    let second: u64 = anchors(det_w, det_h, 16);
    let third: u64 = anchors(det_w, det_h, 32);
    let total: u64 = first + second + third;
    if total <= usize::MAX as u64 {
        Some(total as usize)
    } else {
        None
    }
}

fn anchors(det_w: u32, det_h: u32, stride: u32) -> (count: u64)
    requires
        8 <= stride,
    ensures
        count == stride_anchors(det_w, det_h, stride as int),
        count <= 0x800_0000_0000_0000,
{
    let width: u32 = det_w / stride;
    let height: u32 = det_h / stride;
    proof {
        assert((det_w as int) / (stride as int) < 0x2000_0000) by (nonlinear_arith)
            requires
                8 <= stride,
                det_w <= 0xffff_ffff,
        ;
        assert((det_h as int) / (stride as int) < 0x2000_0000) by (nonlinear_arith)
            requires
                8 <= stride,
                det_h <= 0xffff_ffff,
        ;
        assert(width * height <= 0x2000_0000 * 0x2000_0000) by (nonlinear_arith)
            requires
                width < 0x2000_0000,
                height < 0x2000_0000,
        ;
    }
    width as u64 * height as u64 * 2
}

/// A candidate lies in a cell of the map and has the score of its anchor, which
/// is above the threshold.
pub open spec fn is_placed(
    candidate: Candidate,
    scores: Seq<u32>,
    count: nat,
    threshold: u32,
    fmap_w: usize,
    fmap_h: usize,
) -> bool {
    &&& candidate.cell_x < fmap_w && candidate.cell_y < fmap_h
    &&& candidate.index < count
    &&& candidate.score == scores[candidate.index as int]
    &&& !at_most32(candidate.score, threshold)
}

/// Every candidate lies in a cell of the map.
pub proof fn candidates_lie_in_the_map(
    scores: Seq<u32>,
    count: nat,
    threshold: u32,
    fmap_w: usize,
    fmap_h: usize,
)
    requires
        0 < fmap_w,
        count <= scores.len(),
        scores.len() <= usize::MAX,
    ensures
        forall|i: int|
            0 <= i < candidates_of(scores, count, threshold, fmap_w, fmap_h).len() ==> is_placed(
                #[trigger] candidates_of(scores, count, threshold, fmap_w, fmap_h)[i],
                scores,
                count,
                threshold,
                fmap_w,
                fmap_h,
            ),
    decreases count,
{
    if count > 0 {
        let at = count - 1;
        candidates_lie_in_the_map(scores, at as nat, threshold, fmap_w, fmap_h);
        let before = candidates_of(scores, at as nat, threshold, fmap_w, fmap_h);
        let after = candidates_of(scores, count, threshold, fmap_w, fmap_h);
        assert forall|i: int| 0 <= i < after.len() implies is_placed(
            #[trigger] after[i],
            scores,
            count,
            threshold,
            fmap_w,
            fmap_h,
        ) by {
            if i < before.len() {
                assert(after[i] == before[i]);
                assert(is_placed(before[i], scores, at as nat, threshold, fmap_w, fmap_h));
            } else {
                let cell = at / 2;
                assert(0 <= cell < fmap_w * fmap_h);
                assert(0 <= cell / (fmap_w as int) && cell / (fmap_w as int) < fmap_h)
                    by (nonlinear_arith)
                    requires
                        0 <= cell < fmap_w * fmap_h,
                        0 < fmap_w,
                ;
                assert(0 <= cell % (fmap_w as int) && cell % (fmap_w as int) < fmap_w)
                    by (nonlinear_arith)
                    requires
                        0 <= cell,
                        0 < fmap_w,
                ;
            }
        }
    }
}

/// The candidates are exactly the anchors whose score is above the threshold and
/// whose cell there is, each once and in order: every two anchors share a cell,
/// and cells are counted row by row.
pub proof fn candidates_are_the_anchors_above(
    scores: Seq<u32>,
    count: nat,
    threshold: u32,
    fmap_w: usize,
    fmap_h: usize,
)
    requires
        0 < fmap_w,
        count <= scores.len() <= usize::MAX,
    ensures
        forall|j: int|
            0 <= j < candidates_of(scores, count, threshold, fmap_w, fmap_h).len() ==> {
                let found = #[trigger] candidates_of(scores, count, threshold, fmap_w, fmap_h)[j];
                &&& found.index < count
                &&& !at_most32(scores[found.index as int], threshold)
                &&& found.index as int / 2 < fmap_w * fmap_h
                &&& found.cell_y * fmap_w + found.cell_x == found.index as int / 2
                &&& found.cell_x < fmap_w
                &&& found.score == scores[found.index as int]
            },
        forall|i: int|
            0 <= i < count && !at_most32(#[trigger] scores[i], threshold) && i / 2 < fmap_w
                * fmap_h ==> exists|j: int|
                0 <= j < candidates_of(scores, count, threshold, fmap_w, fmap_h).len()
                    && #[trigger] candidates_of(scores, count, threshold, fmap_w, fmap_h)[j].index
                    == i,
        forall|a: int, b: int|
            0 <= a < b < candidates_of(scores, count, threshold, fmap_w, fmap_h).len() ==> (
            #[trigger] candidates_of(scores, count, threshold, fmap_w, fmap_h)[a]).index < (
            #[trigger] candidates_of(scores, count, threshold, fmap_w, fmap_h)[b]).index,
    decreases count,
{
    if count > 0 {
        let at = count - 1;
        candidates_are_the_anchors_above(scores, at as nat, threshold, fmap_w, fmap_h);
        let before = candidates_of(scores, at as nat, threshold, fmap_w, fmap_h);
        let after = candidates_of(scores, count, threshold, fmap_w, fmap_h);
        assert(forall|j: int| 0 <= j < before.len() ==> after[j] == before[j]);
        let cell = at / 2;
        vstd::arithmetic::div_mod::lemma_fundamental_div_mod(cell, fmap_w as int);
        assert(0 <= cell % (fmap_w as int) < fmap_w);
        assert(0 <= cell / (fmap_w as int) <= cell) by (nonlinear_arith)
            requires
                0 <= cell,
                0 < fmap_w,
        ;
        assert(cell / (fmap_w as int) * fmap_w == fmap_w * (cell / (fmap_w as int)))
            by (nonlinear_arith);
        assert forall|j: int| 0 <= j < after.len() implies {
            let found = #[trigger] after[j];
            &&& found.index < count
            &&& !at_most32(scores[found.index as int], threshold)
            &&& found.index as int / 2 < fmap_w * fmap_h
            &&& found.cell_y * fmap_w + found.cell_x == found.index as int / 2
            &&& found.cell_x < fmap_w
            &&& found.score == scores[found.index as int]
        } by {
            if j < before.len() {
                assert(after[j] == before[j]);
            }
        }
        assert forall|i: int|
            0 <= i < count && !at_most32(#[trigger] scores[i], threshold) && i / 2 < fmap_w
                * fmap_h implies exists|j: int|
            0 <= j < after.len() && #[trigger] after[j].index == i by {
            if i < at {
                let j = choose|j: int|
                    0 <= j < before.len() && #[trigger] before[j].index == i;
                assert(after[j].index == i);
            } else {
                assert(after[before.len() as int].index == i);
            }
        }
        assert forall|a: int, b: int| 0 <= a < b < after.len() implies (
        #[trigger] after[a]).index < (#[trigger] after[b]).index by {
            assert(after[a] == before[a]);
            if b < before.len() {
                assert(after[b] == before[b]);
            }
        }
    }
}

/// The place of a number in the order of numbers; both zeros have one place.
pub open spec fn value_rank(bits: u32) -> int {
    if zero32(bits) {
        0
    } else {
        rank32(bits)
    }
}

/// Faces are in order by score, the highest first; equal scores keep their
/// order.
pub open spec fn scored_before(scores: Seq<u32>, a: int, b: int) -> bool {
    value_rank(scores[a]) > value_rank(scores[b]) || (value_rank(scores[a]) == value_rank(scores[b])
        && a < b)
}

/// `order` lists faces by their score.
pub open spec fn is_score_order(order: Seq<usize>, scores: Seq<u32>) -> bool {
    is_order(order, scores.len(), |a: int, b: int| scored_before(scores, a, b))
}

/// `overlaps` is a function that tells what `same` says.
pub open spec fn tells<F: Fn(usize, usize) -> bool>(
    overlaps: F,
    same: spec_fn(usize, usize) -> bool,
) -> bool {
    forall|a: usize, b: usize, answer: bool| #[trigger]
        call_ensures(overlaps, (a, b), answer) ==> answer == same(a, b)
}

/// Whether a face is the same as one of those kept.
pub open spec fn is_suppressed(
    kept: Seq<usize>,
    face: usize,
    same: spec_fn(usize, usize) -> bool,
) -> bool {
    exists|i: int| 0 <= i < kept.len() && same(#[trigger] kept[i], face)
}

/// The faces that are kept of the first `count` in an order: a face is dropped
/// where it is the same as one that was kept before it.
pub open spec fn kept_of(
    order: Seq<usize>,
    same: spec_fn(usize, usize) -> bool,
    count: nat,
) -> Seq<usize>
    decreases count,
{
    if count == 0 {
        Seq::empty()
    } else {
        let before = kept_of(order, same, (count - 1) as nat);
        let face = order[count - 1];
        if is_suppressed(before, face, same) {
            before
        } else {
            before.push(face)
        }
    }
}

/// Faces can be ordered by score.
pub proof fn scores_are_ordered(scores: Seq<u32>)
    requires
        forall|i: int| 0 <= i < scores.len() ==> finite32(#[trigger] scores[i]),
    ensures
        strict_total(scores.len(), |a: int, b: int| scored_before(scores, a, b)),
{
}

fn order_by_score(scores: &Vec<u32>) -> (order: Vec<usize>)
    requires
        forall|i: int| 0 <= i < scores@.len() ==> finite32(#[trigger] scores@[i]),
    ensures
        is_score_order(order@, scores@),
{
    let ghost less = |a: int, b: int| scored_before(scores@, a, b);
    let before = |a: usize, b: usize| -> (r: bool)
        requires
            a < scores@.len(),
            b < scores@.len(),
            forall|i: int| 0 <= i < scores@.len() ==> finite32(#[trigger] scores@[i]),
        ensures
            r == scored_before(scores@, a as int, b as int),
        {
            assert(finite32(scores@[a as int]) && finite32(scores@[b as int]));
            is_less32(scores[b], scores[a]) || (a < b && !is_less32(scores[a], scores[b]))
        };
    assert(strict_total(scores@.len(), less));
    order_by(scores.len(), &before, Ghost(less))
}

/// The faces that are kept, the highest score first. `overlaps` tells whether
/// the second of two faces is the same as the first.
pub fn nms<F: Fn(usize, usize) -> bool>(scores: &Vec<u32>, overlaps: &F) -> (kept: Vec<usize>)
    requires
        forall|i: int| 0 <= i < scores@.len() ==> finite32(#[trigger] scores@[i]),
        forall|a: usize, b: usize|
            a < scores@.len() && b < scores@.len() ==> #[trigger] call_requires(*overlaps, (a, b)),
    ensures
        forall|same: spec_fn(usize, usize) -> bool| #[trigger]
            tells(*overlaps, same) ==> keeps_best(scores@, same, kept@),
        kept@.len() <= scores@.len(),
        forall|i: int| 0 <= i < kept@.len() ==> (#[trigger] kept@[i]) < scores@.len(),
{
    let order = order_by_score(scores);
    let mut kept: Vec<usize> = Vec::new();
    let mut index: usize = 0;
    while index < order.len()
        invariant
            index <= order@.len(),
            order@.len() == scores@.len(),
            forall|i: int| 0 <= i < order@.len() ==> (#[trigger] order@[i]) < scores@.len(),
            forall|a: usize, b: usize|
                a < scores@.len() && b < scores@.len() ==> #[trigger] call_requires(
                    *overlaps,
                    (a, b),
                ),
            kept@.len() <= index,
            forall|i: int| 0 <= i < kept@.len() ==> (#[trigger] kept@[i]) < scores@.len(),
            forall|same: spec_fn(usize, usize) -> bool| #[trigger]
                tells(*overlaps, same) ==> kept@ == kept_of(order@, same, index as nat),
        decreases order.len() - index,
    {
        let face: usize = order[index];
        let mut found = false;
        let mut at: usize = 0;
        while at < kept.len() && !found
            invariant
                at <= kept@.len(),
                face < scores@.len(),
                forall|i: int| 0 <= i < kept@.len() ==> (#[trigger] kept@[i]) < scores@.len(),
                forall|a: usize, b: usize|
                    a < scores@.len() && b < scores@.len() ==> #[trigger] call_requires(
                        *overlaps,
                        (a, b),
                    ),
                forall|same: spec_fn(usize, usize) -> bool| #[trigger]
                    tells(*overlaps, same) ==> found == exists|i: int|
                        0 <= i < at && same(#[trigger] kept@[i], face),
            decreases kept.len() - at,
        {
            let answer = overlaps(kept[at], face);
            proof {
                assert forall|same: spec_fn(usize, usize) -> bool| #[trigger]
                    tells(*overlaps, same) implies answer == (exists|i: int|
                    0 <= i < at + 1 && same(#[trigger] kept@[i], face)) by {
                    assert(answer == same(kept@[at as int], face));
                }
            }
            found = answer;
            at = at + 1;
        }
        proof {
            assert forall|same: spec_fn(usize, usize) -> bool| #[trigger]
                tells(*overlaps, same) implies found == is_suppressed(kept@, face, same) by {}
        }
        if !found {
            kept.push(face);
        }
        index = index + 1;
    }
    proof {
        assert forall|same: spec_fn(usize, usize) -> bool| #[trigger]
            tells(*overlaps, same) implies keeps_best(scores@, same, kept@) by {
            assert(is_kept_in(order@, scores@, same, kept@));
        }
    }
    kept
}

/// Faces are those kept of an order by score.
pub open spec fn is_kept_in(
    order: Seq<usize>,
    scores: Seq<u32>,
    same: spec_fn(usize, usize) -> bool,
    kept: Seq<usize>,
) -> bool {
    is_score_order(order, scores) && kept == kept_of(order, same, order.len())
}

/// Faces are those kept of the scores.
pub open spec fn keeps_best(
    scores: Seq<u32>,
    same: spec_fn(usize, usize) -> bool,
    kept: Seq<usize>,
) -> bool {
    exists|order: Seq<usize>| #[trigger] is_kept_in(order, scores, same, kept)
}

proof fn kept_faces_differ(
    order: Seq<usize>,
    scores: Seq<u32>,
    same: spec_fn(usize, usize) -> bool,
    count: nat,
)
    requires
        is_score_order(order, scores),
        count <= order.len(),
    ensures
        forall|i: int, j: int|
            0 <= i < j < kept_of(order, same, count).len() ==> !same(
                #[trigger] kept_of(order, same, count)[i],
                #[trigger] kept_of(order, same, count)[j],
            ),
    decreases count,
{
    if count > 0 {
        let last = (count - 1) as nat;
        kept_faces_differ(order, scores, same, last);
        let before = kept_of(order, same, last);
        let after = kept_of(order, same, count);
        assert forall|i: int, j: int| 0 <= i < j < after.len() implies !same(
            #[trigger] after[i],
            #[trigger] after[j],
        ) by {
            assert(after[i] == before[i]);
            if j < before.len() {
                assert(after[j] == before[j]);
            }
        }
    }
}

/// Whether a face is the same as one of those kept that has at least its score.
pub open spec fn is_outscored(
    kept: Seq<usize>,
    scores: Seq<u32>,
    face: usize,
    same: spec_fn(usize, usize) -> bool,
) -> bool {
    exists|i: int|
        0 <= i < kept.len() && same(#[trigger] kept[i], face) && value_rank(scores[kept[i] as int])
            >= value_rank(scores[face as int])
}

proof fn dropped_faces_are_outscored(
    order: Seq<usize>,
    scores: Seq<u32>,
    same: spec_fn(usize, usize) -> bool,
    count: nat,
    k: int,
)
    requires
        is_score_order(order, scores),
        0 <= k < count <= order.len(),
    ensures
        kept_of(order, same, count).contains(order[k]) || is_outscored(
            kept_of(order, same, count),
            scores,
            order[k],
            same,
        ),
    decreases count,
{
    let last = (count - 1) as nat;
    let before = kept_of(order, same, last);
    let after = kept_of(order, same, count);
    if k < last {
        dropped_faces_are_outscored(order, scores, same, last, k);
        if before.contains(order[k]) {
            let i = before.index_of(order[k]);
            assert(after[i] == order[k]);
        } else {
            let i = choose|i: int|
                0 <= i < before.len() && same(#[trigger] before[i], order[k]) && value_rank(
                    scores[before[i] as int],
                ) >= value_rank(scores[order[k] as int]);
            assert(after[i] == before[i]);
        }
    } else if is_suppressed(before, order[k], same) {
        kept_faces_are_in_order(order, scores, same, last);
        let i = choose|i: int| 0 <= i < before.len() && same(#[trigger] before[i], order[k]);
        assert(scored_before(scores, before[i] as int, order[k] as int));
        assert(after[i] == before[i]);
    } else {
        assert(after[before.len() as int] == order[k]);
    }
}

/// No two faces that are kept are the same, those kept are in the order of their
/// scores, and every face that is dropped is the same as one that is kept and has
/// at least its score.
pub proof fn suppression_keeps_one_of_each(
    order: Seq<usize>,
    scores: Seq<u32>,
    same: spec_fn(usize, usize) -> bool,
    kept: Seq<usize>,
)
    requires
        is_kept_in(order, scores, same, kept),
    ensures
        forall|i: int, j: int|
            0 <= i < j < kept.len() ==> !same(#[trigger] kept[i], #[trigger] kept[j]),
        forall|k: int|
            0 <= k < order.len() ==> kept.contains(#[trigger] order[k]) || is_outscored(
                kept,
                scores,
                order[k],
                same,
            ),
        forall|i: int, j: int|
            0 <= i < j < kept.len() ==> scored_before(
                scores,
                #[trigger] kept[i] as int,
                #[trigger] kept[j] as int,
            ),
        order.len() > 0 ==> kept.len() > 0 && kept[0] == order[0],
{
    kept_faces_differ(order, scores, same, order.len());
    kept_faces_are_in_order(order, scores, same, order.len());
    assert forall|k: int| 0 <= k < order.len() implies kept.contains(#[trigger] order[k])
        || is_outscored(kept, scores, order[k], same) by {
        dropped_faces_are_outscored(order, scores, same, order.len(), k);
    }
    if order.len() > 0 {
        first_is_kept(order, same, order.len());
    }
}

proof fn first_is_kept(order: Seq<usize>, same: spec_fn(usize, usize) -> bool, count: nat)
    requires
        0 < count <= order.len(),
    ensures
        kept_of(order, same, count).len() > 0,
        kept_of(order, same, count)[0] == order[0],
    decreases count,
{
    if count > 1 {
        first_is_kept(order, same, (count - 1) as nat);
    } else {
        assert(kept_of(order, same, 0) =~= Seq::empty());
    }
}

/// Faces that are kept are in the order of their scores, before those that have not
/// been looked at.
pub proof fn kept_faces_are_in_order(
    order: Seq<usize>,
    scores: Seq<u32>,
    same: spec_fn(usize, usize) -> bool,
    count: nat,
)
    requires
        is_score_order(order, scores),
        count <= order.len(),
    ensures
        ({
            let kept = kept_of(order, same, count);
            &&& kept.len() <= count
            &&& forall|i: int| 0 <= i < kept.len() ==> (#[trigger] kept[i]) < scores.len()
            &&& forall|i: int, j: int|
                0 <= i < j < kept.len() ==> scored_before(
                    scores,
                    #[trigger] kept[i] as int,
                    #[trigger] kept[j] as int,
                )
            &&& forall|i: int, k: int|
                0 <= i < kept.len() && count <= k < order.len() ==> scored_before(
                    scores,
                    #[trigger] kept[i] as int,
                    #[trigger] order[k] as int,
                )
        }),
    decreases count,
{
    if count > 0 {
        let less = |a: int, b: int| scored_before(scores, a, b);
        let last = (count - 1) as nat;
        kept_faces_are_in_order(order, scores, same, last);
        let before = kept_of(order, same, last);
        let kept = kept_of(order, same, count);
        assert forall|i: int, k: int|
            0 <= i < kept.len() && count <= k < order.len() implies scored_before(
            scores,
            #[trigger] kept[i] as int,
            #[trigger] order[k] as int,
        ) by {
            if i < before.len() {
                assert(kept[i] == before[i]);
            } else {
                assert(less(order[last as int] as int, order[k] as int));
            }
        }
    }
}

/// The numbers below `count`, in order.
pub open spec fn in_place(count: nat) -> Seq<usize> {
    Seq::new(count, |i: int| i as usize)
}

/// Where faces stand in the order of their scores, there is no other order.
proof fn ordered_faces_stay(order: Seq<usize>, scores: Seq<u32>)
    requires
        scores.len() <= usize::MAX,
        is_score_order(order, scores),
        forall|i: int, j: int| 0 <= i < j < scores.len() ==> #[trigger] scored_before(scores, i, j),
    ensures
        order == in_place(scores.len()),
{
    let less = |a: int, b: int| scored_before(scores, a, b);
    assert forall|i: int, j: int| 0 <= i < j < order.len() implies (#[trigger] order[i])
        < #[trigger] order[j] by {
        let a = order[i] as int;
        let b = order[j] as int;
        assert(less(a, b));
        if b < a {
            assert(scored_before(scores, b, a));
        }
    }
    assert forall|i: int| 0 <= i < order.len() implies order[i] == in_place(scores.len())[i] by {
        rising_numbers_are_bounded(order, i);
    }
    assert(order =~= in_place(scores.len()));
}

proof fn rising_numbers_are_bounded(order: Seq<usize>, at: int)
    requires
        0 <= at < order.len(),
        forall|i: int| 0 <= i < order.len() ==> (#[trigger] order[i]) < order.len(),
        forall|i: int, j: int|
            0 <= i < j < order.len() ==> (#[trigger] order[i]) < #[trigger] order[j],
    ensures
        order[at] == at,
{
    rising_from_below(order, at);
    rising_to_above(order, at);
}

proof fn rising_from_below(order: Seq<usize>, at: int)
    requires
        0 <= at < order.len(),
        forall|i: int, j: int|
            0 <= i < j < order.len() ==> (#[trigger] order[i]) < #[trigger] order[j],
    ensures
        order[at] >= at,
    decreases at,
{
    if at > 0 {
        rising_from_below(order, at - 1);
    }
}

proof fn rising_to_above(order: Seq<usize>, at: int)
    requires
        0 <= at < order.len(),
        forall|i: int| 0 <= i < order.len() ==> (#[trigger] order[i]) < order.len(),
        forall|i: int, j: int|
            0 <= i < j < order.len() ==> (#[trigger] order[i]) < #[trigger] order[j],
    ensures
        order[at] <= at,
    decreases order.len() - at,
{
    if at < order.len() - 1 {
        rising_to_above(order, at + 1);
        assert(order[at] < order[at + 1]);
    }
}

proof fn differing_faces_stay(same: spec_fn(usize, usize) -> bool, total: nat, count: nat)
    requires
        count <= total <= usize::MAX,
        forall|i: int, j: int| 0 <= i < j < total ==> !#[trigger] same(i as usize, j as usize),
    ensures
        kept_of(in_place(total), same, count) == in_place(count),
    decreases count,
{
    if count > 0 {
        let last = (count - 1) as nat;
        differing_faces_stay(same, total, last);
        let before = in_place(last);
        let face = in_place(total)[last as int];
        assert forall|i: int| 0 <= i < before.len() implies !same(#[trigger] before[i], face) by {
            assert(!same(i as usize, last as usize));
        }
        assert(before.push(face) =~= in_place(count));
    } else {
        assert(kept_of(in_place(total), same, 0) =~= in_place(0));
    }
}

/// Suppressing again what was kept changes nothing: all of it is kept, in the same
/// order. `kept_scores` and `kept_same` speak of the faces that were kept.
pub proof fn suppressing_again_changes_nothing(
    scores: Seq<u32>,
    same: spec_fn(usize, usize) -> bool,
    kept: Seq<usize>,
    kept_scores: Seq<u32>,
    kept_same: spec_fn(usize, usize) -> bool,
    again: Seq<usize>,
)
    requires
        scores.len() <= usize::MAX,
        keeps_best(scores, same, kept),
        kept_scores.len() == kept.len(),
        forall|i: int|
            0 <= i < kept.len() ==> #[trigger] kept_scores[i] == scores[kept[i] as int],
        forall|a: usize, b: usize|
            a < kept.len() && b < kept.len() ==> #[trigger] kept_same(a, b) == same(
                kept[a as int],
                kept[b as int],
            ),
    ensures
        keeps_best(kept_scores, kept_same, again) <==> again == in_place(kept.len()),
{
    let order = choose|order: Seq<usize>| #[trigger] is_kept_in(order, scores, same, kept);
    kept_faces_are_in_order(order, scores, same, order.len());
    kept_faces_differ(order, scores, same, order.len());
    let place = in_place(kept.len());
    assert forall|i: int, j: int| 0 <= i < j < kept.len() implies #[trigger] scored_before(
        kept_scores,
        i,
        j,
    ) by {
        assert(scored_before(scores, kept[i] as int, kept[j] as int));
    }
    assert forall|i: int, j: int| 0 <= i < j < kept.len() implies !#[trigger] kept_same(
        i as usize,
        j as usize,
    ) by {
        assert(!same(kept[i], kept[j]));
    }
    differing_faces_stay(kept_same, kept.len(), kept.len());
    assert(is_score_order(place, kept_scores)) by {
        let less = |a: int, b: int| scored_before(kept_scores, a, b);
        assert forall|i: int, j: int| 0 <= i < j < place.len() implies #[trigger] less(
            place[i] as int,
            place[j] as int,
        ) by {
            assert(scored_before(kept_scores, i, j));
        }
    }
    assert(is_kept_in(place, kept_scores, kept_same, place));
    if keeps_best(kept_scores, kept_same, again) {
        let other = choose|other: Seq<usize>| #[trigger]
            is_kept_in(other, kept_scores, kept_same, again);
        ordered_faces_stay(other, kept_scores);
    }
}


/// Faces are ranked by their scores: one that is ranked before another does not have the
/// lower score, and one with the higher score is ranked before.
pub proof fn higher_scores_come_first(scores: Seq<u32>, a: int, b: int)
    requires
        0 <= a < scores.len(),
        0 <= b < scores.len(),
        finite32(scores[a]) && finite32(scores[b]),
    ensures
        scored_before(scores, a, b) ==> !crate::float_bits::less32(scores[a], scores[b]),
        crate::float_bits::less32(scores[b], scores[a]) ==> scored_before(scores, a, b)
            && !scored_before(scores, b, a),
        !crate::float_bits::less32(scores[a], scores[b]) && !crate::float_bits::less32(
            scores[b],
            scores[a],
        ) ==> (scored_before(scores, a, b) <==> a < b),
{
}

} // verus!
