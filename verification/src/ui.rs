//! The decisions of the handwriting window: what each user action does to
//! the strokes drawn so far and to the list of candidates, and what the
//! window has to do next.

use vstd::prelude::*;
use crate::canvas::{canvas_dimensions, canvas_pixels, RgbCanvas};
use crate::processing::{painting_frame_to_image, render_frame};
use crate::raster::{Point, Segment};

verus! {

/// The side, in pixels, of the square image that the recogniser reads.
pub const RECOGNITION_SIDE: u32 = 384;

/// What the user did during one frame of the window.
pub enum UiEvent {
    /// The pointer is held down on the writing area; during this frame it
    /// moved from `from` to `to`.
    Drag { from: Point, to: Point },
    /// The "Recognize" button was clicked.
    RecognizeClicked,
    /// The button of the candidate at this index was clicked.
    CandidateClicked(usize),
    /// The "Options" button was clicked.
    OptionsClicked,
}

/// What the window has to do in answer.
pub enum UiAction {
    /// Nothing beyond redrawing.
    Nothing,
    /// Run the recogniser on this image and hand its candidates to
    /// `finish_recognition`.
    Recognize(RgbCanvas),
    /// Report that this candidate was chosen.
    ReportCandidate(String),
    /// Report that the options were asked for.
    ReportOptions,
}

/// The segment that a drag traced.
pub open spec fn drag_segment(from: Point, to: Point) -> Segment {
    [from, to]
}

/// The strokes on a window after the events `h`, where each "Recognize"
/// click stands for a completed recognition: a drag appends its segment, a
/// completed recognition clears the drawing, and the other clicks leave it.
pub open spec fn frame_after(h: Seq<UiEvent>) -> Seq<Segment>
    decreases h.len(),
{
    if h.len() == 0 {
        Seq::empty()
    } else {
        let prev = frame_after(h.drop_last());
        match h.last() {
            UiEvent::Drag { from, to } => prev.push(drag_segment(from, to)),
            UiEvent::RecognizeClicked => Seq::empty(),
            _ => prev,
        }
    }
}

/// The segments of the drags among the events `h`, in order.
pub open spec fn drag_segments(h: Seq<UiEvent>) -> Seq<Segment>
    decreases h.len(),
{
    if h.len() == 0 {
        Seq::empty()
    } else {
        let prev = drag_segments(h.drop_last());
        match h.last() {
            UiEvent::Drag { from, to } => prev.push(drag_segment(from, to)),
            _ => prev,
        }
    }
}

/// The index of the last "Recognize" click among the events `h`, or `-1`.
pub open spec fn last_recognition(h: Seq<UiEvent>) -> int
    decreases h.len(),
{
    if h.len() == 0 {
        -1
    } else if h.last() is RecognizeClicked {
        h.len() - 1
    } else {
        last_recognition(h.drop_last())
    }
}

/// Each stroke is recognised once, at the first recognition after it was
/// drawn: after any events, the strokes on the window are the segments of
/// the drags since the last completed recognition, in the order drawn. The
/// image that `handle` asks to recognise is the rendering of these strokes.
pub proof fn lemma_frame_after(h: Seq<UiEvent>)
    ensures
        -1 <= last_recognition(h) < h.len(),
        frame_after(h) == drag_segments(h.skip(last_recognition(h) + 1)),
    decreases h.len(),
{
    if h.len() > 0 {
        let init = h.drop_last();
        lemma_frame_after(init);
        if h.last() is RecognizeClicked {
            assert(h.skip(h.len() as int) =~= Seq::<UiEvent>::empty());
        } else {
            let l = last_recognition(init);
            assert(h.skip(l + 1).drop_last() =~= init.skip(l + 1));
            assert(h.skip(l + 1).last() == h.last());
        }
    }
}

/// The state of the handwriting window: the strokes drawn since the last
/// recognition, and the candidates of the last recognition.
pub struct HandtuxState {
    painting_frame: Vec<Segment>,
    candidates: Vec<String>,
    history: Ghost<Seq<UiEvent>>,
}

impl HandtuxState {
    /// The strokes are those that the events so far leave.
    #[verifier::type_invariant]
    spec fn consistent(self) -> bool {
        self.painting_frame@ == frame_after(self.history@)
    }

    /// The strokes drawn since the last recognition, oldest first.
    pub closed spec fn frame(self) -> Seq<Segment> {
        self.painting_frame@
    }

    /// The candidates of the last recognition.
    pub closed spec fn candidate_list(self) -> Seq<String> {
        self.candidates@
    }

    /// The events the window has taken, a completed recognition counting as
    /// a "Recognize" click.
    pub closed spec fn history(self) -> Seq<UiEvent> {
        self.history@
    }

    /// A window with nothing drawn and no candidates.
    pub fn new() -> (s: Self)
        ensures
            s.frame() == Seq::<Segment>::empty(),
            s.candidate_list() == Seq::<String>::empty(),
            s.history() == Seq::<UiEvent>::empty(),
    {
        HandtuxState { painting_frame: Vec::new(), candidates: Vec::new(), history: Ghost(Seq::empty()) }
    }

    /// The strokes drawn since the last recognition, oldest first.
    pub fn painting_frame(&self) -> (f: &Vec<Segment>)
        ensures
            f@ == self.frame(),
    {
        &self.painting_frame
    }

    /// The candidates of the last recognition.
    pub fn candidates(&self) -> (c: &Vec<String>)
        ensures
            c@ == self.candidate_list(),
    {
        &self.candidates
    }

    /// Whether the window invites the user to write: exactly when nothing
    /// has been drawn since the last recognition.
    pub fn show_writing_hint(&self) -> (b: bool)
        ensures
            b == (self.frame().len() == 0),
    {
        self.painting_frame.len() == 0
    }

    /// Applies one user action. A drag appends the segment it traced; the
    /// "Recognize" button asks for the recognition of the drawing rendered at
    /// `RECOGNITION_SIDE` pixels square; a candidate's button asks to report that candidate; the
    /// "Options" button asks to report it. Only a drag changes the strokes.
    /// Every event but a "Recognize" click joins the history; the click
    /// joins it when the recognition completes.
    pub fn handle(&mut self, event: UiEvent) -> (action: UiAction)
        ensures
            final(self).candidate_list() == old(self).candidate_list(),
            old(self).frame() == frame_after(old(self).history()),
            final(self).frame() == frame_after(final(self).history()),
            final(self).history() == (if event is RecognizeClicked {
                old(self).history()
            } else {
                old(self).history().push(event)
            }),
            match event {
                UiEvent::Drag { from, to } => {
                    &&& final(self).frame().len() == old(self).frame().len() + 1
                    &&& final(self).frame().drop_last() == old(self).frame()
                    &&& final(self).frame().last()[0] == from
                    &&& final(self).frame().last()[1] == to
                    &&& action is Nothing
                },
                UiEvent::RecognizeClicked => {
                    &&& final(self).frame() == old(self).frame()
                    &&& action matches UiAction::Recognize(img) && canvas_dimensions(img) == (
                        RECOGNITION_SIDE,
                        RECOGNITION_SIDE,
                    ) && canvas_pixels(img) == render_frame(
                        old(self).frame(),
                        RECOGNITION_SIDE,
                        RECOGNITION_SIDE,
                    )
                },
                UiEvent::CandidateClicked(i) => {
                    &&& final(self).frame() == old(self).frame()
                    &&& if i < old(self).candidate_list().len() {
                        action == UiAction::ReportCandidate(old(self).candidate_list()[i as int])
                    } else {
                        action is Nothing
                    }
                },
                UiEvent::OptionsClicked => {
                    &&& final(self).frame() == old(self).frame()
                    &&& action is ReportOptions
                },
            },
    {
        proof {
            use_type_invariant(&*self);
        }
        let ghost e = event;
        match event {
            UiEvent::Drag { from, to } => {
                let mut taken = HandtuxState::new();
                std::mem::swap(self, &mut taken);
                proof {
                    use_type_invariant(&taken);
                }
                let HandtuxState { mut painting_frame, candidates, history } = taken;
                painting_frame.push([from, to]);
                let ghost new_history = history@.push(e);
                assert(new_history.drop_last() =~= history@);
                assert(painting_frame@ =~= frame_after(new_history));
                *self = HandtuxState { painting_frame, candidates, history: Ghost(new_history) };
                UiAction::Nothing
            },
            UiEvent::RecognizeClicked => {
                let img = painting_frame_to_image(&self.painting_frame, RECOGNITION_SIDE, RECOGNITION_SIDE);
                UiAction::Recognize(img)
            },
            UiEvent::CandidateClicked(i) => {
                proof {
                    assert(self.history@.push(e).drop_last() =~= self.history@);
                }
                self.history = Ghost(self.history@.push(e));
                if i < self.candidates.len() {
                    UiAction::ReportCandidate(self.candidates[i].clone())
                } else {
                    UiAction::Nothing
                }
            },
            UiEvent::OptionsClicked => {
                proof {
                    assert(self.history@.push(e).drop_last() =~= self.history@);
                }
                self.history = Ghost(self.history@.push(e));
                UiAction::ReportOptions
            },
        }
    }

    /// Takes the candidates of a recognition: they replace the old ones, and
    /// the drawing is cleared for the next word, and the recognition joins
    /// the history as a "Recognize" click.
    pub fn finish_recognition(&mut self, candidates: Vec<String>)
        ensures
            final(self).candidate_list() == candidates@,
            final(self).frame() == Seq::<Segment>::empty(),
            final(self).history() == old(self).history().push(UiEvent::RecognizeClicked),
            final(self).frame() == frame_after(final(self).history()),
    {
        let ghost new_history = self.history@.push(UiEvent::RecognizeClicked);
        *self = HandtuxState { painting_frame: Vec::new(), candidates, history: Ghost(new_history) };
    }
}

} // verus!
