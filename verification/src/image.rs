//! Decoded images as the view state sees them: a frame with its natural
//! size, the outcome of decoding a file, and the size at which a frame is
//! rendered for a given zoom anchor.
//!
//! The pixels and the animation handles belong to the decoder; they are
//! carried along untouched, which is why their types are parameters.

use vstd::prelude::*;
use crate::animation::AnimationCursor;
use crate::exact::{lemma_product_bound, quotient, to_i32, truncate_quotient};

verus! {

/// One decoded frame: its pixels, and its natural width and height.
#[derive(Debug)]
pub struct Bitmap<P> {
    pub pixels: P,
    pub width: i32,
    pub height: i32,
}

/// What the decoder made of a file.
#[derive(Debug)]
pub enum DecodedImage<P, A, C> {
    /// A still image.
    SingleFrame(Bitmap<P>),
    /// An animation, and a cursor positioned at its first frame.
    MultiFrame { animation: A, cursor: AnimationCursor<P, C> },
}

/// Why an image could not be opened.
#[derive(Clone, Copy, Debug, PartialEq, Eq, Structural)]
pub enum DecodeError {
    /// No path was given.
    PathAbsent,
    /// The file is missing, damaged, or of an unsupported format.
    Undecodable,
}

/// Why the displayed bitmap could not be brought up to date.
#[derive(Clone, Copy, Debug, PartialEq, Eq, Structural)]
pub enum ScaleError {
    /// The target width or height is not positive.
    EmptyTarget,
    /// The resampler failed.
    RescaleFailed,
}

/// The smaller of a width and a height: the dimension that zoom is measured
/// against.
pub open spec fn reference_of(width: int, height: int) -> int {
    if width <= height {
        width
    } else {
        height
    }
}

/// The reference dimension as a divisor: at least one.
pub open spec fn divisor_of(width: int, height: int) -> int {
    if reference_of(width, height) >= 1 {
        reference_of(width, height)
    } else {
        1
    }
}

/// One dimension of a frame of natural size `width` by `height`, scaled so
/// that the frame's reference dimension becomes `anchor`, and truncated.
pub open spec fn scaled_dimension(dimension: int, width: int, height: int, anchor: int) -> int {
    to_i32((dimension as real) * quotient(anchor, divisor_of(width, height)))
}

/// Whether a frame of natural size `width` by `height` can be rendered at
/// `anchor`: both scaled dimensions must be positive.
pub open spec fn renderable(width: int, height: int, anchor: int) -> bool {
    scaled_dimension(width, width, height, anchor) > 0 && scaled_dimension(
        height,
        width,
        height,
        anchor,
    ) > 0
}

impl<P, A, C> DecodedImage<P, A, C> {
    /// The frame to show first.
    pub open spec fn first_frame(self) -> Bitmap<P> {
        match self {
            DecodedImage::SingleFrame(frame) => frame,
            DecodedImage::MultiFrame { cursor, .. } => cursor.frame,
        }
    }
}

impl<P> Bitmap<P> {
    /// The frame's natural reference dimension.
    pub open spec fn reference(&self) -> int {
        reference_of(self.width as int, self.height as int)
    }

    /// The smaller of the frame's natural width and height.
    pub fn reference_dimension(&self) -> (reference: i32)
        ensures
            reference == self.reference(),
    {
        if self.width <= self.height {
            self.width
        } else {
            self.height
        }
    }
}

/// `dimension` scaled by `anchor` over `divisor`, truncated into an `i32`.
fn scale_dimension(dimension: i32, anchor: i32, divisor: i32) -> (scaled: i32)
    requires
        divisor >= 1,
    ensures
        scaled == to_i32((dimension as real) * quotient(anchor as int, divisor as int)),
{
    proof {
        lemma_product_bound(dimension as int, anchor as int, 0x8000_0000, 0x8000_0000);
    }
    let product: i128 = (dimension as i128) * (anchor as i128);
    proof {
        let d: real = dimension as real;
        let a: real = anchor as real;
        let m: real = divisor as real;
        assert(d * (a / m) == ((dimension * anchor) as real) / m) by (nonlinear_arith)
            requires
                m >= 1real,
                d == dimension as real,
                a == anchor as real,
        ;
    }
    truncate_quotient(product, divisor as i128)
}

/// The width and height at which a frame of natural size `width` by `height`
/// is rendered when its reference dimension is to become `anchor`.
pub fn scaled_size(width: i32, height: i32, anchor: i32) -> (target: Result<(i32, i32), ScaleError>)
    ensures
        match target {
            Ok((scaled_width, scaled_height)) => {
                &&& renderable(width as int, height as int, anchor as int)
                &&& scaled_width == scaled_dimension(
                    width as int,
                    width as int,
                    height as int,
                    anchor as int,
                )
                &&& scaled_height == scaled_dimension(
                    height as int,
                    width as int,
                    height as int,
                    anchor as int,
                )
            },
            Err(error) => error == ScaleError::EmptyTarget && !renderable(
                width as int,
                height as int,
                anchor as int,
            ),
        },
{
    let reference: i32 = if width <= height {
        width
    } else {
        height
    };
    let divisor: i32 = if reference >= 1 {
        reference
    } else {
        1
    };
    let scaled_width: i32 = scale_dimension(width, anchor, divisor);
    let scaled_height: i32 = scale_dimension(height, anchor, divisor);
    if scaled_width <= 0 || scaled_height <= 0 {
        Err(ScaleError::EmptyTarget)
    } else {
        Ok((scaled_width, scaled_height))
    }
}

} // verus!
