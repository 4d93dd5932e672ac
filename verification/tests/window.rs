use handtux::raster::Point;
use handtux::ui::{HandtuxState, UiAction, UiEvent};

fn pt(x: i32, y: i32) -> Point {
    Point { x, y }
}

#[test]
fn new_window_invites_writing() {
    let s = HandtuxState::new();
    assert!(s.show_writing_hint());
    assert!(s.painting_frame().is_empty());
    assert!(s.candidates().is_empty());
}

#[test]
fn drags_append_segments_in_order() {
    let mut s = HandtuxState::new();
    assert!(matches!(s.handle(UiEvent::Drag { from: pt(1, 2), to: pt(3, 4) }), UiAction::Nothing));
    assert!(matches!(s.handle(UiEvent::Drag { from: pt(3, 4), to: pt(5, 5) }), UiAction::Nothing));
    assert_eq!(s.painting_frame(), &vec![[pt(1, 2), pt(3, 4)], [pt(3, 4), pt(5, 5)]]);
    assert!(!s.show_writing_hint());
}

#[test]
fn recognize_renders_the_drawing_and_keeps_it_until_finished() {
    let mut s = HandtuxState::new();
    s.handle(UiEvent::Drag { from: pt(10, 10), to: pt(12, 10) });
    match s.handle(UiEvent::RecognizeClicked) {
        UiAction::Recognize(img) => {
            assert_eq!(img.dimensions(), (384, 384));
            assert_eq!(img.pixel(11, 11), Some((0, 0, 0)));
            assert_eq!(img.pixel(14, 10), Some((255, 255, 255)));
        }
        _ => panic!("expected a recognition request"),
    }
    assert_eq!(s.painting_frame().len(), 1);
    s.finish_recognition(vec!["Grah".to_string(), "Grah".to_string()]);
    assert!(s.painting_frame().is_empty());
    assert!(s.show_writing_hint());
    assert_eq!(s.candidates(), &vec!["Grah".to_string(), "Grah".to_string()]);
}

#[test]
fn candidate_and_options_clicks_are_reported() {
    let mut s = HandtuxState::new();
    s.finish_recognition(vec!["one".to_string(), "two".to_string()]);
    match s.handle(UiEvent::CandidateClicked(1)) {
        UiAction::ReportCandidate(c) => assert_eq!(c, "two"),
        _ => panic!("expected a report"),
    }
    assert!(matches!(s.handle(UiEvent::CandidateClicked(2)), UiAction::Nothing));
    assert!(matches!(s.handle(UiEvent::OptionsClicked), UiAction::ReportOptions));
    assert_eq!(s.candidates().len(), 2);
    assert!(s.painting_frame().is_empty());
}
