//! Rendering a painting frame (the list of stroke segments drawn so far)
//! into an RGB image: a white page on which every pixel of every segment
//! leaves a black dot of two by two pixels, cut off at the page's edges.

use vstd::prelude::*;
use crate::canvas::{black, canvas_dimensions, canvas_pixels, uniform_pixels, white, Color, PixelPos, RgbCanvas};
use crate::raster::{lemma_line_pixels_shape, line_pixels, LineWalk, Segment};

verus! {

/// The positions of a `width` x `height` image.
pub open spec fn canvas_domain(width: u32, height: u32) -> Set<PixelPos> {
    Set::new(|p: PixelPos| p.0 < width && p.1 < height)
}

/// A pixel of a line lies on the image: the test that decides whether the
/// pixel is inked, with the bounds taken as `i32` as the renderer takes them.
pub open spec fn in_canvas(p: (int, int), width: u32, height: u32) -> bool {
    0 <= p.0 && p.0 < (width as i32) as int && 0 <= p.1 && p.1 < (height as i32) as int
}

/// Inking the line pixel `p` paints `p` and its neighbours to the right,
/// below, and below right black, where `p` lies on the image; a neighbour
/// past the last column or row is left out.
pub open spec fn ink_dot(m: Map<PixelPos, Color>, p: (int, int), width: u32, height: u32) -> Map<PixelPos, Color> {
    if in_canvas(p, width, height) {
        let x = p.0 as u32;
        let y = p.1 as u32;
        let x1 = (p.0 + 1) as u32;
        let y1 = (p.1 + 1) as u32;
        let right = p.0 + 1 < width;
        let below = p.1 + 1 < height;
        let m0 = m.insert((x, y), black());
        let m1 = if right { m0.insert((x1, y), black()) } else { m0 };
        let m2 = if below { m1.insert((x, y1), black()) } else { m1 };
        if right && below { m2.insert((x1, y1), black()) } else { m2 }
    } else {
        m
    }
}

/// Inking the line pixels `pts`, in order.
pub open spec fn ink_points(m: Map<PixelPos, Color>, pts: Seq<(int, int)>, width: u32, height: u32) -> Map<PixelPos, Color>
    decreases pts.len(),
{
    if pts.len() == 0 {
        m
    } else {
        ink_dot(ink_points(m, pts.drop_last(), width, height), pts.last(), width, height)
    }
}

/// The line pixels of a segment.
pub open spec fn segment_pixels(s: Segment) -> Seq<(int, int)> {
    line_pixels(s[0], s[1])
}

/// The image of a painting frame: a white page on which the segments are
/// inked one after the other.
pub open spec fn render_frame(frame: Seq<Segment>, width: u32, height: u32) -> Map<PixelPos, Color>
    decreases frame.len(),
{
    if frame.len() == 0 {
        uniform_pixels(width, height, white())
    } else {
        ink_points(render_frame(frame.drop_last(), width, height), segment_pixels(frame.last()), width, height)
    }
}

/// The dot of line pixel `p` covers the image position `q`.
pub open spec fn dot_covers(p: (int, int), q: PixelPos, width: u32, height: u32) -> bool {
    &&& in_canvas(p, width, height)
    &&& (q.0 == p.0 || q.0 == p.0 + 1)
    &&& (q.1 == p.1 || q.1 == p.1 + 1)
}

/// Some dot of the line pixels `pts` covers `q`.
pub open spec fn points_cover(pts: Seq<(int, int)>, q: PixelPos, width: u32, height: u32) -> bool {
    exists|k: int| 0 <= k < pts.len() && dot_covers(#[trigger] pts[k], q, width, height)
}

/// Some dot of some segment of the frame covers `q`.
pub open spec fn frame_covers(frame: Seq<Segment>, q: PixelPos, width: u32, height: u32) -> bool {
    exists|i: int| 0 <= i < frame.len() && points_cover(segment_pixels(#[trigger] frame[i]), q, width, height)
}

fn white_page(width: u32, height: u32) -> (c: RgbCanvas)
    requires
        3 * (width as int) * (height as int) <= isize::MAX,
    ensures
        canvas_dimensions(c) == (width, height),
        canvas_pixels(c) == uniform_pixels(width, height, white()),
{
    let mut c = RgbCanvas::new_black(width, height);
    let mut y: u32 = 0;
    while y < height
        invariant
            y <= height,
            canvas_dimensions(c) == (width, height),
            canvas_pixels(c) == Map::new(
                |p: PixelPos| p.0 < width && p.1 < height,
                |p: PixelPos| if p.1 < y { white() } else { black() },
            ),
        decreases height - y,
    {
        let mut x: u32 = 0;
        while x < width
            invariant
                x <= width,
                y < height,
                canvas_dimensions(c) == (width, height),
                canvas_pixels(c) == Map::new(
                    |p: PixelPos| p.0 < width && p.1 < height,
                    |p: PixelPos| if p.1 < y || (p.1 == y && p.0 < x) { white() } else { black() },
                ),
            decreases width - x,
        {
            c.put_pixel(x, y, 255, 255, 255);
            x = x + 1;
            assert(canvas_pixels(c) =~= Map::new(
                |p: PixelPos| p.0 < width && p.1 < height,
                |p: PixelPos| if p.1 < y || (p.1 == y && p.0 < x) { white() } else { black() },
            ));
        }
        y = y + 1;
        assert(canvas_pixels(c) =~= Map::new(
            |p: PixelPos| p.0 < width && p.1 < height,
            |p: PixelPos| if p.1 < y { white() } else { black() },
        ));
    }
    assert(canvas_pixels(c) =~= uniform_pixels(width, height, white()));
    c
}

/// Inks the line pixel `(x, y)`: where it lies on the image, it and its

/// Inks the line pixel `(x, y)`: where it lies on the image, it and its
/// neighbours to the right, below, and below right turn black, as far as
/// they lie on the image.
fn ink_at(c: &mut RgbCanvas, x: i64, y: i64, width: u32, height: u32)
    requires
        canvas_dimensions(*old(c)) == (width, height),
    ensures
        canvas_dimensions(*final(c)) == (width, height),
        canvas_pixels(*final(c)) == ink_dot(canvas_pixels(*old(c)), (x as int, y as int), width, height),
{
    let x_bound = (width as i32) as i64;
    let y_bound = (height as i32) as i64;
    if x >= 0 && x < x_bound && y >= 0 && y < y_bound {
        let ux = x as u32;
        let uy = y as u32;
        let right = (ux as u64) + 1 < width as u64;
        let below = (uy as u64) + 1 < height as u64;
        c.put_pixel(ux, uy, 0, 0, 0);
        if right {
            c.put_pixel(ux + 1, uy, 0, 0, 0);
        }
        if below {
            c.put_pixel(ux, uy + 1, 0, 0, 0);
        }
        if right && below {
            c.put_pixel(ux + 1, uy + 1, 0, 0, 0);
        }
    }
}

/// Inks every pixel of the segment `s`, from its first point to its second.
fn ink_segment(c: &mut RgbCanvas, s: &Segment, width: u32, height: u32)
    requires
        canvas_dimensions(*old(c)) == (width, height),
    ensures
        canvas_dimensions(*final(c)) == (width, height),
        canvas_pixels(*final(c)) == ink_points(canvas_pixels(*old(c)), segment_pixels(*s), width, height),
{
    let ghost line = segment_pixels(*s);
    let ghost start = canvas_pixels(*c);
    let mut walk = LineWalk::new(s[0], s[1]);
    let ghost mut done: int = 0;
    assert(line.take(0) =~= Seq::<(int, int)>::empty());
    assert(line.skip(0) =~= line);
    loop
        invariant_except_break
            canvas_pixels(*c) == ink_points(start, line.take(done), width, height),
        invariant
            walk.wf(),
            canvas_dimensions(*c) == (width, height),
            0 <= done < line.len(),
            walk.remaining() == line.skip(done),
            line == segment_pixels(*s),
        ensures
            canvas_dimensions(*c) == (width, height),
            canvas_pixels(*c) == ink_points(start, line, width, height),
        decreases walk.remaining().len(),
    {
        let (x, y) = walk.position();
        assert(line[done] == walk.remaining()[0]);
        ink_at(c, x, y, width, height);
        assert(line.take(done + 1).drop_last() =~= line.take(done));
        assert(line.take(done + 1).last() == line[done]);
        if walk.is_last() {
            assert(line.take(done + 1) =~= line);
            break;
        }
        walk.advance();
        proof {
            done = done + 1;
            assert(line.skip(done - 1).drop_first() =~= line.skip(done));
        }
    }
}

/// The image of a painting frame: a `width` x `height` white page on which
/// each segment is drawn as a line of black two-by-two dots, cut off where
/// they reach past the last column or row.
pub fn painting_frame_to_image(painting_frame: &Vec<Segment>, width: u32, height: u32) -> (img: RgbCanvas)
    requires
        3 * (width as int) * (height as int) <= isize::MAX,
    ensures
        canvas_dimensions(img) == (width, height),
        canvas_pixels(img) == render_frame(painting_frame@, width, height),
{
    let mut img = white_page(width, height);
    let n = painting_frame.len();
    assert(painting_frame@.take(0) =~= Seq::<Segment>::empty());
    for k in 0..n
        invariant
            n == painting_frame@.len(),
            canvas_dimensions(img) == (width, height),
            canvas_pixels(img) == render_frame(painting_frame@.take(k as int), width, height),
    {
        ink_segment(&mut img, &painting_frame[k], width, height);
        assert(painting_frame@.take(k + 1).drop_last() =~= painting_frame@.take(k as int));
        assert(painting_frame@.take(k + 1).last() == painting_frame@[k as int]);
    }
    assert(painting_frame@.take(n as int) =~= painting_frame@);
    img
}

/// Inked positions stay on the image, and inking a dot turns black exactly
/// the positions on the image that the dot covers.
proof fn lemma_ink_dot(m: Map<PixelPos, Color>, p: (int, int), width: u32, height: u32)
    requires
        m.dom() == canvas_domain(width, height),
    ensures
        ink_dot(m, p, width, height).dom() == canvas_domain(width, height),
        forall|q: PixelPos|
            #![trigger ink_dot(m, p, width, height)[q]]
            canvas_domain(width, height).contains(q) ==> ink_dot(m, p, width, height)[q] == (if dot_covers(
                p,
                q,
                width,
                height,
            ) {
                black()
            } else {
                m[q]
            }),
{
    if in_canvas(p, width, height) {
        assert((width as i32) as int <= width);
        assert((height as i32) as int <= height);
        assert(ink_dot(m, p, width, height).dom() =~= canvas_domain(width, height));
    }
}

proof fn lemma_ink_points(m: Map<PixelPos, Color>, pts: Seq<(int, int)>, width: u32, height: u32)
    requires
        m.dom() == canvas_domain(width, height),
    ensures
        ink_points(m, pts, width, height).dom() == canvas_domain(width, height),
        forall|q: PixelPos|
            #![trigger ink_points(m, pts, width, height)[q]]
            canvas_domain(width, height).contains(q) ==> ink_points(m, pts, width, height)[q] == (if points_cover(
                pts,
                q,
                width,
                height,
            ) {
                black()
            } else {
                m[q]
            }),
    decreases pts.len(),
{
    if pts.len() > 0 {
        let init = pts.drop_last();
        let p = pts.last();
        lemma_ink_points(m, init, width, height);
        let prev = ink_points(m, init, width, height);
        lemma_ink_dot(prev, p, width, height);
        let res = ink_points(m, pts, width, height);
        assert(res == ink_dot(prev, p, width, height));
        assert forall|q: PixelPos| #![trigger res[q]] canvas_domain(width, height).contains(q) implies res[q] == (
        if points_cover(pts, q, width, height) {
            black()
        } else {
            m[q]
        }) by {
            assert(res[q] == ink_dot(prev, p, width, height)[q]);
            if dot_covers(p, q, width, height) {
                assert(dot_covers(pts[pts.len() - 1], q, width, height));
            } else {
                assert(res[q] == prev[q]);
                if points_cover(pts, q, width, height) {
                    let k = choose|k: int| 0 <= k < pts.len() && dot_covers(#[trigger] pts[k], q, width, height);
                    assert(k < pts.len() - 1);
                    assert(dot_covers(init[k], q, width, height));
                }
                if points_cover(init, q, width, height) {
                    let k = choose|k: int| 0 <= k < init.len() && dot_covers(#[trigger] init[k], q, width, height);
                    assert(dot_covers(pts[k], q, width, height));
                }
            }
        }
    }
}

/// What the image of a painting frame shows: it has exactly the positions of
/// a `width` x `height` image, and a pixel is black where the dot of some
/// line pixel of some segment covers it and white everywhere else.
pub proof fn lemma_render_frame(frame: Seq<Segment>, width: u32, height: u32)
    ensures
        render_frame(frame, width, height).dom() == canvas_domain(width, height),
        forall|q: PixelPos|
            #![trigger render_frame(frame, width, height)[q]]
            canvas_domain(width, height).contains(q) ==> render_frame(frame, width, height)[q] == (if frame_covers(
                frame,
                q,
                width,
                height,
            ) {
                black()
            } else {
                white()
            }),
    decreases frame.len(),
{
    if frame.len() == 0 {
        assert(uniform_pixels(width, height, white()).dom() =~= canvas_domain(width, height));
    } else {
        let init = frame.drop_last();
        let s = frame.last();
        lemma_render_frame(init, width, height);
        let prev = render_frame(init, width, height);
        lemma_ink_points(prev, segment_pixels(s), width, height);
        let res = render_frame(frame, width, height);
        assert forall|q: PixelPos| #![trigger res[q]] canvas_domain(width, height).contains(q) implies res[q] == (
        if frame_covers(frame, q, width, height) {
            black()
        } else {
            white()
        }) by {
            if points_cover(segment_pixels(s), q, width, height) {
                assert(points_cover(segment_pixels(frame[frame.len() - 1]), q, width, height));
            } else {
                if frame_covers(frame, q, width, height) {
                    let i = choose|i: int| 0 <= i < frame.len() && points_cover(segment_pixels(#[trigger] frame[i]), q, width, height);
                    assert(i < frame.len() - 1);
                    assert(points_cover(segment_pixels(init[i]), q, width, height));
                }
                if frame_covers(init, q, width, height) {
                    let i = choose|i: int| 0 <= i < init.len() && points_cover(segment_pixels(#[trigger] init[i]), q, width, height);
                    assert(points_cover(segment_pixels(frame[i]), q, width, height));
                }
            }
        }
    }
}

/// The image of one frame followed by another is black exactly where the
/// image of either frame is black.
pub proof fn lemma_render_concat(a: Seq<Segment>, b: Seq<Segment>, width: u32, height: u32)
    ensures
        render_frame(a + b, width, height).dom() == canvas_domain(width, height),
        forall|q: PixelPos|
            #![trigger render_frame(a + b, width, height)[q]]
            canvas_domain(width, height).contains(q) ==> ((render_frame(a + b, width, height)[q] == black()) <==> (
            render_frame(a, width, height)[q] == black() || render_frame(b, width, height)[q] == black())),
{
    lemma_render_frame(a + b, width, height);
    lemma_render_frame(a, width, height);
    lemma_render_frame(b, width, height);
    let ab = a + b;
    assert forall|q: PixelPos| #![trigger render_frame(a + b, width, height)[q]]
        canvas_domain(width, height).contains(q) implies ((render_frame(a + b, width, height)[q] == black()) <==> (
        render_frame(a, width, height)[q] == black() || render_frame(b, width, height)[q] == black())) by {
        assert(render_frame(a, width, height)[q] == black() <==> frame_covers(a, q, width, height));
        assert(render_frame(b, width, height)[q] == black() <==> frame_covers(b, q, width, height));
        if frame_covers(ab, q, width, height) {
            let i = choose|i: int| 0 <= i < ab.len() && points_cover(segment_pixels(#[trigger] ab[i]), q, width, height);
            if i < a.len() {
                assert(ab[i] == a[i]);
            } else {
                assert(ab[i] == b[i - a.len()]);
            }
        }
        if frame_covers(a, q, width, height) {
            let i = choose|i: int| 0 <= i < a.len() && points_cover(segment_pixels(#[trigger] a[i]), q, width, height);
            assert(ab[i] == a[i]);
        }
        if frame_covers(b, q, width, height) {
            let i = choose|i: int| 0 <= i < b.len() && points_cover(segment_pixels(#[trigger] b[i]), q, width, height);
            assert(ab[a.len() + i] == b[i]);
        }
    }
}

/// Frames made of the same segments have the same image, whatever the order
/// of the segments and however often each occurs.
pub proof fn lemma_render_same_segments(f: Seq<Segment>, g: Seq<Segment>, width: u32, height: u32)
    requires
        forall|s: Segment| f.contains(s) <==> g.contains(s),
    ensures
        render_frame(f, width, height) == render_frame(g, width, height),
{
    lemma_render_frame(f, width, height);
    lemma_render_frame(g, width, height);
    assert forall|q: PixelPos| canvas_domain(width, height).contains(q) implies
        frame_covers(f, q, width, height) == frame_covers(g, q, width, height) by {
        if frame_covers(f, q, width, height) {
            let i = choose|i: int| 0 <= i < f.len() && points_cover(segment_pixels(#[trigger] f[i]), q, width, height);
            assert(f.contains(f[i]));
            let j = choose|j: int| 0 <= j < g.len() && g[j] == f[i];
            assert(points_cover(segment_pixels(g[j]), q, width, height));
        }
        if frame_covers(g, q, width, height) {
            let i = choose|i: int| 0 <= i < g.len() && points_cover(segment_pixels(#[trigger] g[i]), q, width, height);
            assert(g.contains(g[i]));
            let j = choose|j: int| 0 <= j < f.len() && f[j] == g[i];
            assert(points_cover(segment_pixels(f[j]), q, width, height));
        }
    }
    assert(render_frame(f, width, height) =~= render_frame(g, width, height)) by {
        assert forall|q: PixelPos| #[trigger] render_frame(f, width, height).dom().contains(q) implies
            render_frame(f, width, height)[q] == render_frame(g, width, height)[q] by {
            assert(canvas_domain(width, height).contains(q));
        }
    }
}

/// The image of a painting frame, stated by the segments' own points: every
/// pixel is black or white; a black pixel is at offset 0 or 1 to the right
/// and 0 or 1 below some pixel of the line walk from the first point of some
/// segment to its second; and, on a page whose sides fit in `i32`, each line
/// pixel on the page is black together with its neighbours to the right,
/// below and below right that lie on the page. In particular both end points
/// of every segment are black where they lie on the page.
pub proof fn lemma_render_by_segments(frame: Seq<Segment>, width: u32, height: u32)
    ensures
        render_frame(frame, width, height).dom() == canvas_domain(width, height),
        forall|q: PixelPos|
            #![trigger render_frame(frame, width, height)[q]]
            q.0 < width && q.1 < height ==> {
                ||| render_frame(frame, width, height)[q] == black()
                ||| render_frame(frame, width, height)[q] == white()
            },
        forall|q: PixelPos|
            #![trigger render_frame(frame, width, height)[q]]
            q.0 < width && q.1 < height && render_frame(frame, width, height)[q] == black() ==> exists|i: int, k: int|
                0 <= i < frame.len() && 0 <= k < line_pixels(frame[i][0], frame[i][1]).len() && {
                    let p = #[trigger] line_pixels(frame[i][0], frame[i][1])[k];
                    &&& (q.0 == p.0 || q.0 == p.0 + 1)
                    &&& (q.1 == p.1 || q.1 == p.1 + 1)
                },
        width <= i32::MAX && height <= i32::MAX ==> forall|i: int, k: int, dx: int, dy: int|
            #![trigger line_pixels(frame[i][0], frame[i][1])[k], render_frame(frame, width, height)[(
                (line_pixels(frame[i][0], frame[i][1])[k].0 + dx) as u32,
                (line_pixels(frame[i][0], frame[i][1])[k].1 + dy) as u32,
            )]]
            0 <= i < frame.len() && 0 <= k < line_pixels(frame[i][0], frame[i][1]).len() && 0 <= dx <= 1
                && 0 <= dy <= 1 && 0 <= line_pixels(frame[i][0], frame[i][1])[k].0
                && line_pixels(frame[i][0], frame[i][1])[k].0 + dx < width
                && 0 <= line_pixels(frame[i][0], frame[i][1])[k].1
                && line_pixels(frame[i][0], frame[i][1])[k].1 + dy < height ==> render_frame(frame, width, height)[(
                (line_pixels(frame[i][0], frame[i][1])[k].0 + dx) as u32,
                (line_pixels(frame[i][0], frame[i][1])[k].1 + dy) as u32,
            )] == black(),
        width <= i32::MAX && height <= i32::MAX ==> forall|i: int|
            #![trigger frame[i]]
            0 <= i < frame.len() ==> {
                &&& (0 <= frame[i][0].x < width && 0 <= frame[i][0].y < height ==> render_frame(frame, width, height)[(
                    frame[i][0].x as u32,
                    frame[i][0].y as u32,
                )] == black())
                &&& (0 <= frame[i][1].x < width && 0 <= frame[i][1].y < height ==> render_frame(frame, width, height)[(
                    frame[i][1].x as u32,
                    frame[i][1].y as u32,
                )] == black())
            },
{
    lemma_render_frame(frame, width, height);
    let r = render_frame(frame, width, height);
    assert forall|q: PixelPos|
        #![trigger render_frame(frame, width, height)[q]]
        q.0 < width && q.1 < height && r[q] == black() implies exists|i: int, k: int|
            0 <= i < frame.len() && 0 <= k < line_pixels(frame[i][0], frame[i][1]).len() && {
                let p = #[trigger] line_pixels(frame[i][0], frame[i][1])[k];
                &&& (q.0 == p.0 || q.0 == p.0 + 1)
                &&& (q.1 == p.1 || q.1 == p.1 + 1)
            } by {
        assert(canvas_domain(width, height).contains(q));
        assert(black() != white());
        let i = choose|i: int| 0 <= i < frame.len() && points_cover(segment_pixels(#[trigger] frame[i]), q, width, height);
        let pts = segment_pixels(frame[i]);
        let k = choose|k: int| 0 <= k < pts.len() && dot_covers(#[trigger] pts[k], q, width, height);
        assert(line_pixels(frame[i][0], frame[i][1])[k] == pts[k]);
    }
    if width <= i32::MAX && height <= i32::MAX {
        assert((width as i32) as int == width);
        assert((height as i32) as int == height);
        assert forall|i: int, k: int, dx: int, dy: int|
            #![trigger line_pixels(frame[i][0], frame[i][1])[k], render_frame(frame, width, height)[(
                (line_pixels(frame[i][0], frame[i][1])[k].0 + dx) as u32,
                (line_pixels(frame[i][0], frame[i][1])[k].1 + dy) as u32,
            )]]
            0 <= i < frame.len() && 0 <= k < line_pixels(frame[i][0], frame[i][1]).len() && 0 <= dx <= 1
                && 0 <= dy <= 1 && 0 <= line_pixels(frame[i][0], frame[i][1])[k].0
                && line_pixels(frame[i][0], frame[i][1])[k].0 + dx < width
                && 0 <= line_pixels(frame[i][0], frame[i][1])[k].1
                && line_pixels(frame[i][0], frame[i][1])[k].1 + dy < height implies r[(
                (line_pixels(frame[i][0], frame[i][1])[k].0 + dx) as u32,
                (line_pixels(frame[i][0], frame[i][1])[k].1 + dy) as u32,
            )] == black() by {
            let p = line_pixels(frame[i][0], frame[i][1])[k];
            let q: PixelPos = ((p.0 + dx) as u32, (p.1 + dy) as u32);
            assert(canvas_domain(width, height).contains(q));
            assert(segment_pixels(frame[i])[k] == p);
            assert(dot_covers(segment_pixels(frame[i])[k], q, width, height));
            assert(points_cover(segment_pixels(frame[i]), q, width, height));
            assert(frame_covers(frame, q, width, height));
        }
        assert forall|i: int| #![trigger frame[i]] 0 <= i < frame.len() implies {
            &&& (0 <= frame[i][0].x < width && 0 <= frame[i][0].y < height ==> r[(
                frame[i][0].x as u32,
                frame[i][0].y as u32,
            )] == black())
            &&& (0 <= frame[i][1].x < width && 0 <= frame[i][1].y < height ==> r[(
                frame[i][1].x as u32,
                frame[i][1].y as u32,
            )] == black())
        } by {
            let s = frame[i];
            lemma_line_pixels_shape(s[0], s[1]);
            let line = line_pixels(s[0], s[1]);
            let n = line.len();
            assert(line[n - 1] == line.last());
            if 0 <= s[0].x < width && 0 <= s[0].y < height {
                let q: PixelPos = (s[0].x as u32, s[0].y as u32);
                assert(segment_pixels(s)[0] == line[0]);
                assert(dot_covers(segment_pixels(s)[0], q, width, height));
                assert(points_cover(segment_pixels(frame[i]), q, width, height));
                assert(frame_covers(frame, q, width, height));
            }
            if 0 <= s[1].x < width && 0 <= s[1].y < height {
                let q: PixelPos = (s[1].x as u32, s[1].y as u32);
                assert(segment_pixels(s)[n - 1] == line[n - 1]);
                assert(dot_covers(segment_pixels(s)[n - 1], q, width, height));
                assert(points_cover(segment_pixels(frame[i]), q, width, height));
                assert(frame_covers(frame, q, width, height));
            }
        }
    }
}

} // verus!
