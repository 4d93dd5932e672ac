# handtux

A small handwriting recogniser: the user writes a word with the pointer, the
strokes are rasterised into a 384 x 384 RGB image, and a TrOCR model reads it.

`src/` is the verified library (Verus):

- `raster` — points, stroke segments, and the integer line walk that turns a
  segment into its pixels, with proofs that the walk starts and ends at the
  segment's points, moves by unit steps, visits `max(|dx|, |dy|) + 1` pixels
  and stays within half a pixel of the straight line.
- `canvas` — the RGB pixel buffer of the `image` crate, seen by proofs as a
  map from positions to colours, and its samples in buffer order.
- `processing` — rendering a painting frame: a white page on which every line
  pixel leaves a black two-by-two dot, cut off at the page's edges; exact
  contracts, a proof of which pixels end up black, and proofs that the image
  of two frames drawn one after the other is their union and that the order
  of the segments does not matter.
- `trocr_processor` — the image processor that renders at the model's size.
- `ui` — the decisions of the window: what each user action does to the
  drawing and the candidates, and what the window must do next; a proof that
  each recognition sees exactly the strokes drawn since the one before.
- `trocr_model` — the decisions of greedy decoding: what the model reads at
  each step and when generation stops.

`app/` is the program around it: the `eframe` window, loading the model from
the Hugging Face hub, the floating-point normalisation of the image, and the
tensor calls of the model.
