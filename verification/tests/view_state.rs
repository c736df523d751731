use huaga::animation::{Advance, AnimationCursor};
use huaga::image::{scaled_size, Bitmap, DecodeError, DecodedImage, ScaleError};
use huaga::navigator::Direction;
use huaga::view_state::{direction_of_click, Phase, RenderRequest, ViewState, TICK_MILLIS};

type View = ViewState<&'static str, &'static str, u32>;
type Decoded = DecodedImage<&'static str, &'static str, u32>;

fn frame(pixels: &'static str, width: i32, height: i32) -> Bitmap<&'static str> {
    Bitmap { pixels, width, height }
}

fn still(pixels: &'static str, width: i32, height: i32) -> Decoded {
    DecodedImage::SingleFrame(frame(pixels, width, height))
}

fn animated(pixels: &'static str, width: i32, height: i32) -> Decoded {
    DecodedImage::MultiFrame {
        animation: "animation",
        cursor: AnimationCursor::new(1, frame(pixels, width, height)),
    }
}

fn shown(view: &View) -> Option<(&'static str, i32, i32)> {
    view.still_image().map(|frame| (frame.pixels, frame.width, frame.height))
}

fn playing(view: &View) -> Option<(u32, &'static str)> {
    view.animation_cursor().map(|cursor| (*cursor.decoder(), cursor.current_frame().pixels))
}

#[test]
fn a_new_view_is_empty_and_clean() {
    let view = View::new();
    assert_eq!(view.phase(), Phase::Empty);
    assert_eq!(view.zoom_anchor_size(), 0);
    assert!(!view.is_dirty());
    assert_eq!(view.current_path(), None);
    assert_eq!(shown(&view), None);
    assert_eq!(view.animation(), None);
    assert_eq!(playing(&view), None);
    assert_eq!(view.render_request(), Ok(RenderRequest::Idle));
}

#[test]
fn opening_a_still_image_loads_it_and_marks_the_view_dirty() {
    let mut view = View::new();
    assert_eq!(view.open_image(Some("a.png".to_string()), Ok(still("a", 640, 480))), Ok(()));
    assert_eq!(view.phase(), Phase::StillLoaded);
    assert_eq!(view.current_path(), Some(&"a.png".to_string()));
    assert_eq!(shown(&view), Some(("a", 640, 480)));
    assert_eq!(view.animation(), None);
    assert_eq!(playing(&view), None);
    assert_eq!(view.zoom_anchor_size(), 480);
    assert!(view.is_dirty());
}

#[test]
fn opening_an_animation_keeps_its_handle_and_cursor() {
    let mut view = View::new();
    assert_eq!(view.open_image(Some("a.gif".to_string()), Ok(animated("f0", 30, 50))), Ok(()));
    assert_eq!(view.phase(), Phase::AnimatedLoaded);
    assert_eq!(shown(&view), Some(("f0", 30, 50)));
    assert_eq!(view.animation(), Some(&"animation"));
    assert_eq!(playing(&view), Some((1, "f0")));
    assert_eq!(view.zoom_anchor_size(), 30);
    assert!(view.is_dirty());
}

#[test]
fn opening_a_still_image_drops_the_animation() {
    let mut view = View::new();
    view.open_image(Some("a.gif".to_string()), Ok(animated("f0", 30, 50))).unwrap();
    view.open_image(Some("b.png".to_string()), Ok(still("b", 10, 10))).unwrap();
    assert_eq!(view.phase(), Phase::StillLoaded);
    assert_eq!(view.animation(), None);
    assert_eq!(playing(&view), None);
    assert_eq!(shown(&view), Some(("b", 10, 10)));
}

#[test]
fn a_failed_decode_leaves_the_state_unchanged() {
    let mut view = View::new();
    assert_eq!(
        view.open_image(Some("bad".to_string()), Err(DecodeError::Undecodable)),
        Err(DecodeError::Undecodable)
    );
    assert_eq!(view.phase(), Phase::Empty);
    assert!(!view.is_dirty());
    view.open_image(Some("a.gif".to_string()), Ok(animated("f0", 30, 50))).unwrap();
    view.complete_render(Ok(())).unwrap();
    assert_eq!(
        view.open_image(Some("bad".to_string()), Err(DecodeError::Undecodable)),
        Err(DecodeError::Undecodable)
    );
    assert_eq!(view.phase(), Phase::AnimatedLoaded);
    assert_eq!(view.current_path(), Some(&"a.gif".to_string()));
    assert_eq!(shown(&view), Some(("f0", 30, 50)));
    assert!(!view.is_dirty());
}

#[test]
fn an_absent_path_is_a_decode_error() {
    let mut view = View::new();
    assert_eq!(view.open_image(None, Ok(still("a", 1, 1))), Err(DecodeError::PathAbsent));
    assert_eq!(view.open_image(None, Err(DecodeError::Undecodable)), Err(DecodeError::PathAbsent));
    assert_eq!(view.phase(), Phase::Empty);
    assert_eq!(view.zoom_anchor_size(), 0);
}

#[test]
fn the_zoom_anchor_is_seeded_once_and_not_reset_by_later_images() {
    let mut view = View::new();
    view.open_image(Some("a".to_string()), Ok(still("a", 640, 480))).unwrap();
    assert_eq!(view.zoom_anchor_size(), 480);
    view.open_image(Some("b".to_string()), Ok(still("b", 100, 200))).unwrap();
    assert_eq!(view.zoom_anchor_size(), 480);
    assert_eq!(view.render_request(), Ok(RenderRequest::Rescale { width: 480, height: 960 }));
}

#[test]
fn scrolling_moves_the_anchor_and_marks_the_view_dirty() {
    let mut view = View::new();
    view.open_image(Some("a".to_string()), Ok(still("a", 100, 150))).unwrap();
    view.complete_render(Ok(())).unwrap();
    assert!(!view.is_dirty());
    view.apply_scroll(50);
    assert_eq!(view.zoom_anchor_size(), 103);
    assert!(view.is_dirty());
    view.apply_scroll(-50);
    // ratio 100/103 < 1, zooming out goes toward one: 103 * 0.97 = 99.91
    assert_eq!(view.zoom_anchor_size(), 99);
}

#[test]
fn scrolling_is_ignored_while_nothing_is_loaded() {
    let mut view = View::new();
    view.apply_scroll(50);
    assert_eq!(view.zoom_anchor_size(), 0);
    assert!(!view.is_dirty());
    assert_eq!(view.phase(), Phase::Empty);
}

#[test]
fn scrolling_is_ignored_while_the_anchor_is_not_set() {
    let mut view = View::new();
    // a frame without extent seeds the anchor with zero
    view.open_image(Some("a".to_string()), Ok(still("a", 0, 10))).unwrap();
    view.complete_render(Ok(())).unwrap_err();
    assert_eq!(view.zoom_anchor_size(), 0);
    view.apply_scroll(50);
    assert_eq!(view.zoom_anchor_size(), 0);
    // the next image seeds it
    view.open_image(Some("b".to_string()), Ok(still("b", 20, 10))).unwrap();
    assert_eq!(view.zoom_anchor_size(), 10);
}

#[test]
fn a_tick_before_the_frame_is_due_changes_nothing() {
    let mut view = View::new();
    view.open_image(Some("a.gif".to_string()), Ok(animated("f0", 30, 50))).unwrap();
    view.complete_render(Ok(())).unwrap();
    assert!(!view.tick(Advance::Stayed));
    assert_eq!(shown(&view), Some(("f0", 30, 50)));
    assert_eq!(playing(&view), Some((1, "f0")));
    assert!(!view.is_dirty());
}

#[test]
fn a_tick_past_the_frame_shows_the_next_frame() {
    let mut view = View::new();
    view.open_image(Some("a.gif".to_string()), Ok(animated("f0", 30, 50))).unwrap();
    view.complete_render(Ok(())).unwrap();
    assert!(view.tick(Advance::Moved(frame("f1", 30, 50))));
    assert_eq!(shown(&view), Some(("f1", 30, 50)));
    assert!(view.is_dirty());
    assert_eq!(view.phase(), Phase::AnimatedLoaded);
    assert_eq!(playing(&view), Some((1, "f1")));
    assert_eq!(view.current_path(), Some(&"a.gif".to_string()));
}

#[test]
fn a_frame_without_an_animation_is_ignored() {
    let mut view = View::new();
    assert!(!view.tick(Advance::Moved(frame("f1", 30, 50))));
    assert_eq!(view.phase(), Phase::Empty);
    view.open_image(Some("a.png".to_string()), Ok(still("a", 30, 50))).unwrap();
    view.complete_render(Ok(())).unwrap();
    assert!(!view.tick(Advance::Moved(frame("f1", 30, 50))));
    assert_eq!(shown(&view), Some(("a", 30, 50)));
    assert!(!view.is_dirty());
}

#[test]
fn a_dirty_view_asks_for_the_still_image_at_the_anchor_size() {
    let mut view = View::new();
    view.open_image(Some("a".to_string()), Ok(still("a", 640, 480))).unwrap();
    assert_eq!(view.render_request(), Ok(RenderRequest::Rescale { width: 640, height: 480 }));
    view.apply_scroll(1);
    // 480 * 1.03 = 494.4; 640 * 494 / 480 = 658.66
    assert_eq!(view.zoom_anchor_size(), 494);
    assert_eq!(view.render_request(), Ok(RenderRequest::Rescale { width: 658, height: 494 }));
}

#[test]
fn a_successful_render_cleans_the_view() {
    let mut view = View::new();
    view.open_image(Some("a".to_string()), Ok(still("a", 640, 480))).unwrap();
    assert_eq!(view.complete_render(Ok(())), Ok(()));
    assert!(!view.is_dirty());
    assert_eq!(view.render_request(), Ok(RenderRequest::Idle));
}

#[test]
fn reconciling_twice_displays_once() {
    let mut view = View::new();
    view.open_image(Some("a".to_string()), Ok(still("a", 640, 480))).unwrap();
    let mut displays = 0;
    for _ in 0..2 {
        if let Ok(RenderRequest::Rescale { .. }) = view.render_request() {
            displays += 1;
            assert_eq!(view.complete_render(Ok(())), Ok(()));
        }
    }
    assert_eq!(displays, 1);
    // completing again without a request changes nothing either
    assert_eq!(view.complete_render(Ok(())), Ok(()));
    assert_eq!(view.complete_render(Err(ScaleError::RescaleFailed)), Ok(()));
    assert!(!view.is_dirty());
    assert_eq!(shown(&view), Some(("a", 640, 480)));
}

#[test]
fn a_failed_rescale_keeps_the_view_dirty() {
    let mut view = View::new();
    view.open_image(Some("a".to_string()), Ok(still("a", 640, 480))).unwrap();
    assert_eq!(
        view.complete_render(Err(ScaleError::RescaleFailed)),
        Err(ScaleError::RescaleFailed)
    );
    assert!(view.is_dirty());
    assert_eq!(view.render_request(), Ok(RenderRequest::Rescale { width: 640, height: 480 }));
    assert_eq!(view.complete_render(Ok(())), Ok(()));
    assert!(!view.is_dirty());
}

#[test]
fn an_empty_target_is_a_scale_error_and_keeps_the_view_dirty() {
    let mut view = View::new();
    view.open_image(Some("a".to_string()), Ok(still("a", 0, 480))).unwrap();
    assert_eq!(view.render_request(), Err(ScaleError::EmptyTarget));
    assert_eq!(view.complete_render(Ok(())), Err(ScaleError::EmptyTarget));
    assert!(view.is_dirty());
    // once the inputs change the render goes through
    view.open_image(Some("b".to_string()), Ok(still("b", 8, 6))).unwrap();
    assert_eq!(view.zoom_anchor_size(), 6);
    assert_eq!(view.render_request(), Ok(RenderRequest::Rescale { width: 8, height: 6 }));
}

#[test]
fn a_collapsed_anchor_never_asks_for_a_render() {
    let mut view = View::new();
    view.open_image(Some("a".to_string()), Ok(still("a", 1, 1))).unwrap();
    view.apply_scroll(-1);
    assert_eq!(view.zoom_anchor_size(), 0);
    assert_eq!(view.render_request(), Err(ScaleError::EmptyTarget));
}

#[test]
fn scaled_sizes_keep_the_aspect_and_truncate() {
    assert_eq!(scaled_size(200, 100, 50), Ok((100, 50)));
    assert_eq!(scaled_size(640, 480, 240), Ok((320, 240)));
    assert_eq!(scaled_size(3, 3, 100), Ok((100, 100)));
    assert_eq!(scaled_size(100, 300, 7), Ok((7, 21)));
    // 1000 * 7 / 300 = 23.33
    assert_eq!(scaled_size(1000, 300, 7), Ok((23, 7)));
    // 5 * 2 / 3 = 3.33
    assert_eq!(scaled_size(5, 3, 2), Ok((3, 2)));
}

#[test]
fn scaled_sizes_that_are_not_positive_are_refused() {
    assert_eq!(scaled_size(640, 480, 0), Err(ScaleError::EmptyTarget));
    assert_eq!(scaled_size(640, 480, -5), Err(ScaleError::EmptyTarget));
    assert_eq!(scaled_size(0, 10, 5), Err(ScaleError::EmptyTarget));
    assert_eq!(scaled_size(10, 0, 5), Err(ScaleError::EmptyTarget));
    assert_eq!(scaled_size(-4, -8, 5), Err(ScaleError::EmptyTarget));
    assert_eq!(scaled_size(i32::MIN, 7, i32::MAX), Err(ScaleError::EmptyTarget));
}

#[test]
fn scaled_sizes_saturate() {
    assert_eq!(scaled_size(i32::MAX, 1, i32::MAX), Ok((i32::MAX, i32::MAX)));
    assert_eq!(scaled_size(1_000_000, 10, 1_000_000), Ok((i32::MAX, 1_000_000)));
}

#[test]
fn the_reference_dimension_is_the_smaller_side() {
    assert_eq!(frame("a", 640, 480).reference_dimension(), 480);
    assert_eq!(frame("a", 480, 640).reference_dimension(), 480);
    assert_eq!(frame("a", 7, 7).reference_dimension(), 7);
    assert_eq!(frame("a", -3, 7).reference_dimension(), -3);
}

#[test]
fn a_scroll_without_the_modifier_is_ignored() {
    let mut view = View::new();
    view.open_image(Some("a".to_string()), Ok(still("a", 100, 150))).unwrap();
    view.complete_render(Ok(())).unwrap();
    view.on_scroll(50, false);
    assert_eq!(view.zoom_anchor_size(), 100);
    assert!(!view.is_dirty());
    view.on_scroll(50, true);
    assert_eq!(view.zoom_anchor_size(), 103);
    assert!(view.is_dirty());
}

#[test]
fn clicks_step_forward_unless_secondary_or_shifted() {
    assert_eq!(direction_of_click(false, false), Direction::Next);
    assert_eq!(direction_of_click(true, false), Direction::Previous);
    assert_eq!(direction_of_click(false, true), Direction::Previous);
    assert_eq!(direction_of_click(true, true), Direction::Previous);
}

#[test]
fn the_tick_comes_every_twenty_milliseconds() {
    assert_eq!(TICK_MILLIS, 20);
}

#[test]
fn a_new_cursor_stands_on_the_first_frame() {
    let cursor = AnimationCursor::new(9u32, frame("f0", 4, 5));
    assert_eq!(*cursor.decoder(), 9);
    assert_eq!(cursor.current_frame().pixels, "f0");
    assert_eq!(cursor.current_frame().width, 4);
    assert_eq!(cursor.current_frame().height, 5);
}

#[test]
fn a_cursor_stays_until_the_decoder_reports_a_new_frame() {
    // two frames: asked before the first frame has run its time, the decoder
    // answers that nothing moved; asked after, it hands out the second frame
    let mut cursor = AnimationCursor::new(9u32, frame("f0", 4, 5));
    assert!(!cursor.advance(Advance::Stayed));
    assert_eq!(cursor.current_frame().pixels, "f0");
    assert!(cursor.advance(Advance::Moved(frame("f1", 4, 5))));
    assert_eq!(cursor.current_frame().pixels, "f1");
    assert_eq!(*cursor.decoder(), 9);
    assert!(!cursor.advance(Advance::Stayed));
    assert_eq!(cursor.current_frame().pixels, "f1");
}
