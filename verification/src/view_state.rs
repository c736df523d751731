//! The view state: the zoom anchor, the loaded image and its animation, and
//! the flag that says the displayed bitmap is stale.
//!
//! Decoding, resampling and display are done by the caller. Every operation
//! here is one step of the state machine: it takes what the caller observed
//! and yields the next state, and, for rendering and navigation, what the
//! caller has to do next.

use vstd::prelude::*;
use crate::animation::{Advance, AnimationCursor};
use crate::exact::to_i32;
use crate::image::{
    renderable, scaled_dimension, scaled_size, Bitmap, DecodeError, DecodedImage, ScaleError,
};
use crate::navigator::{navigation_start, Direction, Listing, Navigation, NavigationError};
use crate::zoom_curve::{next_anchor_size, zoomed_anchor};

verus! {

/// The number of milliseconds between two ticks. Nothing but the tick moves
/// an animation forward, so it has to come at this cadence whatever else
/// goes on.
pub const TICK_MILLIS: u64 = 20;

/// Which kind of image is loaded.
#[derive(Clone, Copy, Debug, PartialEq, Eq, Structural)]
pub enum Phase {
    Empty,
    StillLoaded,
    AnimatedLoaded,
}

/// What has to be done to bring the display up to date.
#[derive(Clone, Copy, Debug, PartialEq, Eq, Structural)]
pub enum RenderRequest {
    /// The displayed bitmap is current.
    Idle,
    /// The still image is to be resampled to this size and displayed.
    Rescale { width: i32, height: i32 },
}

/// How one navigation attempt ended.
#[derive(Debug)]
pub enum Progress {
    /// The candidate decoded and is now the current image.
    Opened,
    /// The candidate did not decode; the next one is to be tried.
    Pending(Navigation),
    /// No candidate is left; nothing changed.
    Failed(NavigationError),
}

/// The view state as a mathematical value.
pub struct ViewModel<P, A, C> {
    /// The reference dimension at which the image is to be shown; zero until
    /// the first image is opened.
    pub zoom_anchor_size: int,
    /// Whether the displayed bitmap is stale.
    pub dirty: bool,
    /// The path of the loaded image.
    pub current_path: Option<Seq<char>>,
    /// The frame to render.
    pub still_image: Option<Bitmap<P>>,
    /// The loaded animation, when the image has several frames.
    pub animation: Option<A>,
    /// The playback position within the animation.
    pub animation_cursor: Option<AnimationCursor<P, C>>,
}

impl<P, A, C> ViewModel<P, A, C> {
    /// The state at startup.
    pub open spec fn initial() -> Self {
        ViewModel {
            zoom_anchor_size: 0,
            dirty: false,
            current_path: None,
            still_image: None,
            animation: None,
            animation_cursor: None,
        }
    }

    /// What holds of every state that the operations can reach.
    pub open spec fn wf(self) -> bool {
        &&& i32::MIN <= self.zoom_anchor_size <= i32::MAX
        &&& (self.animation is Some <==> self.animation_cursor is Some)
        &&& (self.animation_cursor matches Some(cursor) ==> self.still_image == Some(cursor.frame))
        &&& (self.still_image is Some <==> self.current_path is Some)
        &&& (self.dirty ==> self.still_image is Some)
    }

    /// Which kind of image is loaded.
    pub open spec fn phase(self) -> Phase {
        if self.still_image is None {
            Phase::Empty
        } else if self.animation is Some {
            Phase::AnimatedLoaded
        } else {
            Phase::StillLoaded
        }
    }

    /// The state after `decoded` was opened from `path`.
    pub open spec fn opened(self, path: Seq<char>, decoded: DecodedImage<P, A, C>) -> Self {
        ViewModel {
            zoom_anchor_size: if self.zoom_anchor_size == 0 {
                decoded.first_frame().reference()
            } else {
                self.zoom_anchor_size
            },
            dirty: true,
            current_path: Some(path),
            still_image: Some(decoded.first_frame()),
            animation: match decoded {
                DecodedImage::SingleFrame(_) => None,
                DecodedImage::MultiFrame { animation, .. } => Some(animation),
            },
            animation_cursor: match decoded {
                DecodedImage::SingleFrame(_) => None,
                DecodedImage::MultiFrame { cursor, .. } => Some(cursor),
            },
        }
    }

    /// Whether a scroll sample is acted on: an image is loaded and the zoom
    /// anchor is set.
    pub open spec fn scrollable(self) -> bool {
        self.still_image is Some && self.zoom_anchor_size != 0
    }

    /// The state after a scroll sample of `raw_delta`.
    pub open spec fn scrolled(self, raw_delta: int) -> Self {
        if self.scrollable() {
            ViewModel {
                zoom_anchor_size: to_i32(
                    zoomed_anchor(
                        self.zoom_anchor_size,
                        self.still_image->0.reference(),
                        raw_delta,
                    ),
                ),
                dirty: true,
                ..self
            }
        } else {
            self
        }
    }

    /// The state after the decoder answered `advance` on a tick: when the
    /// animation moved, the cursor stands on the new frame, which is also
    /// the frame to render.
    pub open spec fn ticked(self, advance: Advance<P>) -> Self {
        match (self.animation_cursor, advance) {
            (Some(cursor), Advance::Moved(frame)) => ViewModel {
                still_image: Some(frame),
                animation_cursor: Some(cursor.advanced(advance)),
                dirty: true,
                ..self
            },
            _ => self,
        }
    }

    /// What bringing the display up to date asks for.
    pub open spec fn render_request(self) -> Result<RenderRequest, ScaleError>
        recommends
            self.wf(),
    {
        if !self.dirty {
            Ok(RenderRequest::Idle)
        } else {
            let frame = self.still_image->0;
            let width = frame.width as int;
            let height = frame.height as int;
            if renderable(width, height, self.zoom_anchor_size) {
                Ok(
                    RenderRequest::Rescale {
                        width: scaled_dimension(width, width, height, self.zoom_anchor_size) as i32,
                        height: scaled_dimension(
                            height,
                            width,
                            height,
                            self.zoom_anchor_size,
                        ) as i32,
                    },
                )
            } else {
                Err(ScaleError::EmptyTarget)
            }
        }
    }

    /// Whether one reconciliation, in which the resampler answered
    /// `rescale`, ends with the new bitmap on display.
    pub open spec fn displays(self, rescale: Result<(), ScaleError>) -> bool
        recommends
            self.wf(),
    {
        self.render_request() matches Ok(RenderRequest::Rescale { .. }) && rescale is Ok
    }

    /// What one reconciliation reports, when the resampler answered
    /// `rescale`.
    pub open spec fn reconcile_result(self, rescale: Result<(), ScaleError>) -> Result<
        (),
        ScaleError,
    >
        recommends
            self.wf(),
    {
        match self.render_request() {
            Ok(RenderRequest::Idle) => Ok(()),
            Ok(RenderRequest::Rescale { .. }) => rescale,
            Err(error) => Err(error),
        }
    }

    /// The state after one reconciliation: clean when the new bitmap went on
    /// display, unchanged otherwise.
    pub open spec fn reconciled(self, rescale: Result<(), ScaleError>) -> Self
        recommends
            self.wf(),
    {
        if self.displays(rescale) {
            ViewModel { dirty: false, ..self }
        } else {
            self
        }
    }
}

/// What is loaded: a still image, or an animation with the cursor whose
/// current frame is the one to render.
#[derive(Debug)]
enum Content<P, A, C> {
    Still(Bitmap<P>),
    Animated { animation: A, cursor: AnimationCursor<P, C> },
}

/// The loaded image and where it came from.
#[derive(Debug)]
struct Loaded<P, A, C> {
    path: String,
    content: Content<P, A, C>,
}

/// The state of one viewer. It is meant to be shared behind a single lock,
/// each operation running under that lock from start to end.
#[derive(Debug)]
pub struct ViewState<P, A, C> {
    zoom_anchor_size: i32,
    dirty: bool,
    loaded: Option<Loaded<P, A, C>>,
}

impl<P, A, C> View for ViewState<P, A, C> {
    type V = ViewModel<P, A, C>;

    closed spec fn view(&self) -> ViewModel<P, A, C> {
        ViewModel {
            zoom_anchor_size: self.zoom_anchor_size as int,
            dirty: self.dirty && self.loaded is Some,
            current_path: match self.loaded {
                Some(loaded) => Some(loaded.path@),
                None => None,
            },
            still_image: match self.loaded {
                Some(Loaded { content: Content::Still(frame), .. }) => Some(frame),
                Some(Loaded { content: Content::Animated { cursor, .. }, .. }) => Some(
                    cursor.frame,
                ),
                None => None,
            },
            animation: match self.loaded {
                Some(Loaded { content: Content::Animated { animation, .. }, .. }) => Some(
                    animation,
                ),
                _ => None,
            },
            animation_cursor: match self.loaded {
                Some(Loaded { content: Content::Animated { cursor, .. }, .. }) => Some(cursor),
                _ => None,
            },
        }
    }
}

impl<P, A, C> ViewState<P, A, C> {
    /// Every view state is well formed: the animation and its cursor are
    /// present together and only with a still image, a still image has a
    /// path, and only a loaded image can be stale.
    pub proof fn lemma_always_well_formed(self)
        ensures
            self@.wf(),
    {
    }

    /// The state at startup: nothing loaded, nothing to render, the zoom
    /// anchor not yet set.
    pub fn new() -> (state: Self)
        ensures
            state@ == ViewModel::<P, A, C>::initial(),
            state@.wf(),
    {
        ViewState { zoom_anchor_size: 0, dirty: false, loaded: None }
    }

    /// The current zoom anchor; zero until the first image is opened.
    pub fn zoom_anchor_size(&self) -> (anchor: i32)
        ensures
            anchor == self@.zoom_anchor_size,
            self@.wf(),
    {
        self.zoom_anchor_size
    }

    /// Whether the displayed bitmap is stale.
    pub fn is_dirty(&self) -> (dirty: bool)
        ensures
            dirty == self@.dirty,
            self@.wf(),
    {
        self.dirty && self.loaded.is_some()
    }

    /// Which kind of image is loaded.
    pub fn phase(&self) -> (phase: Phase)
        ensures
            phase == self@.phase(),
            self@.wf(),
    {
        match &self.loaded {
            None => Phase::Empty,
            Some(loaded) => match &loaded.content {
                Content::Still(_) => Phase::StillLoaded,
                Content::Animated { .. } => Phase::AnimatedLoaded,
            },
        }
    }

    /// The path of the loaded image.
    pub fn current_path(&self) -> (path: Option<&String>)
        ensures
            path.deep_view() == self@.current_path,
            self@.wf(),
    {
        match &self.loaded {
            None => None,
            Some(loaded) => Some(&loaded.path),
        }
    }

    /// The frame to render.
    pub fn still_image(&self) -> (frame: Option<&Bitmap<P>>)
        ensures
            match frame {
                Some(frame) => self@.still_image == Some(*frame),
                None => self@.still_image is None,
            },
            self@.wf(),
    {
        match &self.loaded {
            None => None,
            Some(loaded) => match &loaded.content {
                Content::Still(frame) => Some(frame),
                Content::Animated { cursor, .. } => Some(cursor.current_frame()),
            },
        }
    }

    /// The loaded animation, when the image has several frames.
    pub fn animation(&self) -> (animation: Option<&A>)
        ensures
            match animation {
                Some(animation) => self@.animation == Some(*animation),
                None => self@.animation is None,
            },
            self@.wf(),
    {
        match &self.loaded {
            Some(Loaded { content: Content::Animated { animation, .. }, .. }) => Some(animation),
            _ => None,
        }
    }

    /// The playback position, whose decoder cursor is to be asked on every
    /// tick whether the animation has moved on.
    pub fn animation_cursor(&self) -> (cursor: Option<&AnimationCursor<P, C>>)
        ensures
            match cursor {
                Some(cursor) => self@.animation_cursor == Some(*cursor),
                None => self@.animation_cursor is None,
            },
            self@.wf(),
    {
        match &self.loaded {
            Some(Loaded { content: Content::Animated { cursor, .. }, .. }) => Some(cursor),
            _ => None,
        }
    }

    /// Makes `decoded`, the decoder's answer for the file at `path`, the
    /// current image. Without a path, or when the file did not decode, the
    /// state stays as it is.
    pub fn open_image(
        &mut self,
        path: Option<String>,
        decoded: Result<DecodedImage<P, A, C>, DecodeError>,
    ) -> (opened: Result<(), DecodeError>)
        ensures
            final(self)@.wf(),
            match (path, decoded) {
                (None, _) => final(self)@ == old(self)@ && opened == Err::<(), DecodeError>(
                    DecodeError::PathAbsent,
                ),
                (Some(_), Err(error)) => opened == Err::<(), DecodeError>(error) && final(self)@
                    == old(self)@,
                (Some(path), Ok(image)) => opened is Ok && final(self)@ == old(self)@.opened(
                    path@,
                    image,
                ),
            },
    {
        let path = match path {
            None => {
                return Err(DecodeError::PathAbsent);
            },
            Some(path) => path,
        };
        let image = match decoded {
            Err(error) => {
                return Err(error);
            },
            Ok(image) => image,
        };
        self.install(path, image);
        Ok(())
    }

    /// Replaces the loaded image by `image`, read from `path`.
    fn install(&mut self, path: String, image: DecodedImage<P, A, C>)
        ensures
            final(self)@ == old(self)@.opened(path@, image),
            final(self)@.wf(),
    {
        let content = match image {
            DecodedImage::SingleFrame(frame) => Content::Still(frame),
            DecodedImage::MultiFrame { animation, cursor } => Content::Animated {
                animation,
                cursor,
            },
        };
        if self.zoom_anchor_size == 0 {
            self.zoom_anchor_size = match &content {
                Content::Still(frame) => frame.reference_dimension(),
                Content::Animated { cursor, .. } => cursor.current_frame().reference_dimension(),
            };
        }
        self.loaded = Some(Loaded { path, content });
        self.dirty = true;
    }

    /// Applies one scroll sample to the zoom anchor and marks the display
    /// stale. Ignored while no image is loaded or the anchor is not set.
    pub fn apply_scroll(&mut self, raw_delta: i32)
        ensures
            final(self)@ == old(self)@.scrolled(raw_delta as int),
            final(self)@.wf(),
    {
        if self.zoom_anchor_size == 0 {
            return ;
        }
        let natural: i32 = match self.still_image() {
            None => {
                return ;
            },
            Some(frame) => frame.reference_dimension(),
        };
        self.zoom_anchor_size = next_anchor_size(self.zoom_anchor_size, natural, raw_delta);
        self.dirty = true;
    }

    /// Takes in a scroll event: a sample that comes with the zoom modifier
    /// held is applied to the zoom anchor, any other is ignored.
    pub fn on_scroll(&mut self, raw_delta: i32, modifier_held: bool)
        ensures
            final(self)@ == (if modifier_held {
                old(self)@.scrolled(raw_delta as int)
            } else {
                old(self)@
            }),
            final(self)@.wf(),
    {
        if modifier_held {
            self.apply_scroll(raw_delta);
        }
    }

    /// Takes in what the decoder answered on this tick. When the animation
    /// moved, the cursor goes to the new frame, which becomes the frame to
    /// render, and the display is marked stale. Returns whether it did.
    pub fn tick(&mut self, advance: Advance<P>) -> (refreshed: bool)
        ensures
            final(self)@ == old(self)@.ticked(advance),
            refreshed == (advance is Moved && old(self)@.animation_cursor is Some),
            final(self)@.wf(),
    {
        let moved: bool = match &mut self.loaded {
            Some(Loaded { content: Content::Animated { cursor, .. }, .. }) => cursor.advance(
                advance,
            ),
            _ => false,
        };
        if moved {
            self.dirty = true;
        }
        moved
    }

    /// What has to be done to bring the display up to date: nothing while
    /// the display is current, else the size to resample the still image
    /// to, or `EmptyTarget` when that size is not positive.
    pub fn render_request(&self) -> (request: Result<RenderRequest, ScaleError>)
        ensures
            request == self@.render_request(),
            self@.wf(),
    {
        if !self.dirty {
            return Ok(RenderRequest::Idle);
        }
        match self.still_image() {
            None => Ok(RenderRequest::Idle),
            Some(frame) => {
                match scaled_size(frame.width, frame.height, self.zoom_anchor_size) {
                    Ok((width, height)) => Ok(RenderRequest::Rescale { width, height }),
                    Err(error) => Err(error),
                }
            },
        }
    }

    /// Ends one reconciliation. `rescale` is the resampler's answer to the
    /// request; on success the caller has put the new bitmap on display and
    /// the state becomes clean. On any failure the state stays stale, so
    /// that a later reconciliation tries again.
    pub fn complete_render(&mut self, rescale: Result<(), ScaleError>) -> (outcome: Result<
        (),
        ScaleError,
    >)
        ensures
            final(self)@ == old(self)@.reconciled(rescale),
            outcome == old(self)@.reconcile_result(rescale),
            final(self)@.wf(),
    {
        match self.render_request() {
            Ok(RenderRequest::Idle) => Ok(()),
            Ok(RenderRequest::Rescale { .. }) => {
                if rescale.is_ok() {
                    self.dirty = false;
                }
                rescale
            },
            Err(error) => Err(error),
        }
    }

    /// Starts a request to step to a sibling image in `direction`, given
    /// what listing the directory of the current image gave.
    pub fn begin_navigation(&self, direction: Direction, listing: &Listing) -> (started: Result<
        Navigation,
        NavigationError,
    >)
        ensures
            match started {
                Ok(navigation) => navigation_start(direction, self@.current_path, *listing) == Ok::<
                    Seq<Seq<char>>,
                    NavigationError,
                >(navigation.remaining()),
                Err(error) => navigation_start(direction, self@.current_path, *listing) == Err::<
                    Seq<Seq<char>>,
                    NavigationError,
                >(error),
            },
            self@.wf(),
    {
        Navigation::begin(direction, self.current_path(), listing)
    }

    /// Takes in the decoder's answer for the current candidate of
    /// `navigation`. A decoded candidate becomes the current image and ends
    /// the request. Otherwise the state stays as it is and the request goes
    /// on with the next candidate, or fails with `NoNavigableImage` when
    /// none is left.
    pub fn navigate(
        &mut self,
        navigation: Navigation,
        decoded: Result<DecodedImage<P, A, C>, DecodeError>,
    ) -> (progress: Progress)
        ensures
            final(self)@.wf(),
            match decoded {
                Ok(image) => progress is Opened && navigation.remaining().len() > 0 && final(self)@
                    == old(self)@.opened(navigation.remaining()[0], image),
                Err(_) => final(self)@ == old(self)@ && match progress {
                    Progress::Opened => false,
                    Progress::Pending(next) => navigation.remaining().len() > 1
                        && next.remaining() == navigation.remaining().skip(1),
                    Progress::Failed(error) => navigation.remaining().len() == 1 && error
                        == NavigationError::NoNavigableImage,
                },
            },
    {
        match decoded {
            Ok(image) => {
                let path = navigation.candidate().clone();
                self.install(path, image);
                Progress::Opened
            },
            Err(_) => match navigation.reject() {
                Ok(next) => Progress::Pending(next),
                Err(error) => Progress::Failed(error),
            },
        }
    }
}

/// The way a click steps: backward for the secondary button or with the
/// shift key held, forward otherwise.
pub fn direction_of_click(secondary: bool, shift_held: bool) -> (direction: Direction)
    ensures
        direction == (if secondary || shift_held {
            Direction::Previous
        } else {
            Direction::Next
        }),
{
    if secondary || shift_held {
        Direction::Previous
    } else {
        Direction::Next
    }
}

/// Every operation takes a well-formed state to a well-formed state. Opening
/// an image always leaves a loaded, stale state; a scroll sample that is
/// acted on and a tick that brings a new frame leave a stale state; a
/// reconciliation never makes a state stale.
pub proof fn lemma_transitions<P, A, C>(
    model: ViewModel<P, A, C>,
    path: Seq<char>,
    decoded: DecodedImage<P, A, C>,
    raw_delta: int,
    advance: Advance<P>,
    rescale: Result<(), ScaleError>,
)
    requires
        model.wf(),
    ensures
        ViewModel::<P, A, C>::initial().wf(),
        ViewModel::<P, A, C>::initial().phase() == Phase::Empty,
        model.opened(path, decoded).wf(),
        model.opened(path, decoded).dirty,
        model.opened(path, decoded).phase() == (if decoded is SingleFrame {
            Phase::StillLoaded
        } else {
            Phase::AnimatedLoaded
        }),
        model.zoom_anchor_size != 0 ==> model.opened(path, decoded).zoom_anchor_size
            == model.zoom_anchor_size,
        model.scrolled(raw_delta).wf(),
        model.scrollable() ==> model.scrolled(raw_delta).dirty,
        model.scrolled(raw_delta).phase() == model.phase(),
        model.ticked(advance).wf(),
        model.ticked(advance).phase() == model.phase(),
        advance is Moved && model.phase() == Phase::AnimatedLoaded ==> model.ticked(advance).dirty,
        model.reconciled(rescale).wf(),
        model.reconciled(rescale).phase() == model.phase(),
        model.reconciled(rescale).dirty ==> model.dirty,
        model.reconcile_result(rescale) is Err ==> model.reconciled(rescale) == model,
{
}

/// Reconciling is idempotent: of two reconciliations with nothing in
/// between, at most one puts a bitmap on display, and a state that is not
/// stale is left exactly as it is, with nothing displayed.
pub proof fn lemma_reconcile_idempotent<P, A, C>(
    model: ViewModel<P, A, C>,
    first: Result<(), ScaleError>,
    second: Result<(), ScaleError>,
)
    requires
        model.wf(),
    ensures
        !(model.displays(first) && model.reconciled(first).displays(second)),
        model.displays(first) ==> model.reconciled(first).reconciled(second) == model.reconciled(
            first,
        ),
        !model.dirty ==> !model.displays(first) && model.reconciled(first) == model
            && model.reconcile_result(first) is Ok,
{
}

} // verus!
