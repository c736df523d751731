//! The playback position of an animation.
//!
//! Whether a frame is due at a given time is for the decoder to say. The
//! cursor keeps the decoder's own cursor together with the frame it stands
//! on, and moves only when it is handed the decoder's answer.

use vstd::prelude::*;
use crate::image::Bitmap;

verus! {

/// What the decoder answered when asked, with the current time, whether the
/// animation has moved to a new frame.
#[derive(Debug)]
pub enum Advance<P> {
    /// The current frame is still the one to show.
    Stayed,
    /// The animation moved on; this is its new current frame.
    Moved(Bitmap<P>),
}

/// A position within a decoded animation: the decoder's cursor, and the
/// frame at that position.
#[derive(Debug)]
pub struct AnimationCursor<P, C> {
    pub decoder: C,
    pub frame: Bitmap<P>,
}

impl<P, C> AnimationCursor<P, C> {
    /// The cursor after the decoder answered `answer`: on a new frame when
    /// the animation moved, and as before when it stayed.
    pub open spec fn advanced(self, answer: Advance<P>) -> Self {
        match answer {
            Advance::Stayed => self,
            Advance::Moved(frame) => AnimationCursor { decoder: self.decoder, frame },
        }
    }

    /// A cursor at the first frame of a freshly decoded animation.
    pub fn new(decoder: C, first_frame: Bitmap<P>) -> (cursor: Self)
        ensures
            cursor == (AnimationCursor { decoder, frame: first_frame }),
    {
        AnimationCursor { decoder, frame: first_frame }
    }

    /// The decoder's cursor, to be asked whether the animation has moved.
    pub fn decoder(&self) -> (decoder: &C)
        ensures
            *decoder == self.decoder,
    {
        &self.decoder
    }

    /// The frame at the cursor's position. There always is one.
    pub fn current_frame(&self) -> (frame: &Bitmap<P>)
        ensures
            *frame == self.frame,
    {
        &self.frame
    }

    /// Takes in the decoder's answer. Returns whether the cursor moved, in
    /// which case the caller has to fetch the current frame again.
    pub fn advance(&mut self, answer: Advance<P>) -> (moved: bool)
        ensures
            *final(self) == old(self).advanced(answer),
            moved == answer is Moved,
    {
        match answer {
            Advance::Stayed => false,
            Advance::Moved(frame) => {
                self.frame = frame;
                true
            },
        }
    }
}

} // verus!
