//! The image processor that prepares a painting frame for the recognition
//! model: it renders the frame at the size that the model reads.

use vstd::prelude::*;
use crate::canvas::{canvas_dimensions, canvas_pixels, RgbCanvas};
use crate::processing::render_frame;
use crate::raster::Segment;

verus! {

/// Renders painting frames at a fixed size.
pub struct ImageProcessor {
    height: usize,
    width: usize,
}

impl ImageProcessor {
    /// Both sides fit in a `u32` and the RGB buffer of that size fits in memory.
    #[verifier::type_invariant]
    spec fn fits(self) -> bool {
        &&& self.width <= u32::MAX
        &&& self.height <= u32::MAX
        &&& 3 * self.width * self.height <= isize::MAX
    }

    /// The width of the images, in pixels.
    pub closed spec fn width_spec(self) -> nat {
        self.width as nat
    }

    /// The height of the images, in pixels.
    pub closed spec fn height_spec(self) -> nat {
        self.height as nat
    }

    /// A processor for images of 384 by 384 pixels, the input size of the model.
    pub fn new() -> (p: Self)
        ensures
            p.width_spec() == 384,
            p.height_spec() == 384,
    {
        Self { height: 384, width: 384 }
    }

    /// The width of the images, in pixels.
    pub fn width(&self) -> (w: usize)
        ensures
            w == self.width_spec(),
    {
        self.width
    }

    /// The height of the images, in pixels.
    pub fn height(&self) -> (h: usize)
        ensures
            h == self.height_spec(),
    {
        self.height
    }

    /// The image of the painting frame at the processor's size: a white page
    /// on which each segment is drawn as a line of black two-by-two dots, cut
    /// off where they reach past the last column or row.
    pub fn painting_frame_to_image(&self, painting_frame: &Vec<Segment>) -> (img: RgbCanvas)
        ensures
            canvas_dimensions(img) == (self.width_spec() as u32, self.height_spec() as u32),
            canvas_pixels(img) == render_frame(
                painting_frame@,
                self.width_spec() as u32,
                self.height_spec() as u32,
            ),
    {
        proof {
            use_type_invariant(self);
        }
        crate::processing::painting_frame_to_image(painting_frame, self.width as u32, self.height as u32)
    }
}

} // verus!
