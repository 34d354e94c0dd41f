//! Rasterization: every pixel of a width × height grid receives the colour of
//! the iteration count that an evaluator gives for it.
use vstd::arithmetic::div_mod::{lemma_fundamental_div_mod, lemma_mod_pos_bound};
use vstd::prelude::*;

use crate::canvas::{
    blank_canvas, canvas_samples, canvas_size, into_samples, put_pixel, sample_index, well_formed,
};
use crate::palette::{get_colour, shade_of};

verus! {

/// The three samples from `start` on show, in grey, a count that `eval` may
/// return for the point (x, y).
pub open spec fn shows_at<F: Fn(u32, u32) -> usize>(
    samples: Seq<u8>,
    start: int,
    x: u32,
    y: u32,
    eval: F,
) -> bool {
    exists|c: usize|
        #[trigger] eval.ensures((x, y), c) && samples[start] == shade_of(c) && samples[start + 1]
            == shade_of(c) && samples[start + 2] == shade_of(c)
}

/// A row-major buffer of `w` × `h` pixels, three samples each, in which
/// every pixel shows the count of its own point.
pub open spec fn depicts<F: Fn(u32, u32) -> usize>(samples: Seq<u8>, w: u32, h: u32, eval: F) -> bool {
    &&& samples.len() == 3 * w * h
    &&& forall|x: u32, y: u32|
        x < w && y < h ==> #[trigger] shows_at(
            samples,
            sample_index(w as int, x as int, y as int),
            x,
            y,
            eval,
        )
}

/// Row `y` of such a buffer on its own: `w` pixels, each showing its count.
pub open spec fn depicts_row<F: Fn(u32, u32) -> usize>(row: Seq<u8>, w: u32, y: u32, eval: F) -> bool {
    &&& row.len() == 3 * w
    &&& forall|x: u32| x < w ==> #[trigger] shows_at(row, sample_index(w as int, x as int, 0), x, y, eval)
}

/// The samples of row `y` in a row-major buffer of width `w`.
pub open spec fn row_of(samples: Seq<u8>, w: u32, y: u32) -> Seq<u8> {
    samples.subrange(3 * w * y, 3 * w * (y + 1))
}

proof fn lemma_cell_in_bounds(w: u32, h: u32, x: u32, y: u32)
    requires
        x < w,
        y < h,
    ensures
        0 <= sample_index(w as int, x as int, y as int),
        sample_index(w as int, x as int, y as int) + 3 <= 3 * w * h,
        sample_index(w as int, x as int, y as int) == 3 * w * y + 3 * x,
{
    assert(y * w + x < (y + 1) * w) by (nonlinear_arith)
        requires
            x < w,
    ;
    assert((y + 1) * w <= h * w) by (nonlinear_arith)
        requires
            y < h,
    ;
    assert(0 <= y * w) by (nonlinear_arith);
    assert(3 * (h * w) == 3 * w * h) by (nonlinear_arith);
    assert(3 * (y * w + x) == 3 * w * y + 3 * x) by (nonlinear_arith);
}

proof fn lemma_cells_apart(w: u32, x1: u32, y1: u32, x2: u32, y2: u32)
    requires
        x1 < w,
        x2 < w,
        x1 != x2 || y1 != y2,
    ensures
        y1 * w + x1 != y2 * w + x2,
{
    if y1 < y2 {
        assert(y1 * w + x1 < y2 * w + x2) by (nonlinear_arith)
            requires
                y1 < y2,
                x1 < w,
        ;
    } else if y2 < y1 {
        assert(y2 * w + x2 < y1 * w + x1) by (nonlinear_arith)
            requires
                y2 < y1,
                x2 < w,
        ;
    }
}

proof fn lemma_shown_kept<F: Fn(u32, u32) -> usize>(
    before: Seq<u8>,
    after: Seq<u8>,
    start: int,
    x: u32,
    y: u32,
    eval: F,
)
    requires
        shows_at(before, start, x, y, eval),
        after[start] == before[start],
        after[start + 1] == before[start + 1],
        after[start + 2] == before[start + 2],
    ensures
        shows_at(after, start, x, y, eval),
{
    let c = choose|c: usize|
        #[trigger] eval.ensures((x, y), c) && before[start] == shade_of(c) && before[start + 1]
            == shade_of(c) && before[start + 2] == shade_of(c);
    assert(eval.ensures((x, y), c));
}

/// Renders the grid column by column: for each `x`, every `y` in turn asks
/// `eval` for the count of (x, y) and stores its colour at that pixel. The
/// result is the image's row-major sample buffer.
pub fn create_mandelbrot<F: Fn(u32, u32) -> usize>(w: u32, h: u32, eval: F) -> (r: Vec<u8>)
    requires
        3 * w <= usize::MAX,
        3 * w * h <= usize::MAX,
        forall|x: u32, y: u32| x < w && y < h ==> eval.requires((x, y)),
    ensures
        depicts(r@, w, h, eval),
{
    let mut canvas = blank_canvas(w, h);
    let mut x: u32 = 0;
    while x < w
        invariant
            x <= w,
            canvas_size(canvas) == (w, h),
            well_formed(canvas),
            forall|i: u32, j: u32| i < w && j < h ==> eval.requires((i, j)),
            forall|i: u32, j: u32|
                i < x && j < h ==> #[trigger] shows_at(
                    canvas_samples(canvas),
                    sample_index(w as int, i as int, j as int),
                    i,
                    j,
                    eval,
                ),
        decreases w - x,
    {
        let mut y: u32 = 0;
        while y < h
            invariant
                x < w,
                y <= h,
                canvas_size(canvas) == (w, h),
                well_formed(canvas),
                forall|i: u32, j: u32| i < w && j < h ==> eval.requires((i, j)),
                forall|i: u32, j: u32|
                    (i < x && j < h) || (i == x && j < y) ==> #[trigger] shows_at(
                        canvas_samples(canvas),
                        sample_index(w as int, i as int, j as int),
                        i,
                        j,
                        eval,
                    ),
            decreases h - y,
        {
            let count = eval(x, y);
            let colour = get_colour(count);
            let ghost before = canvas_samples(canvas);
            put_pixel(&mut canvas, x, y, colour);
            proof {
                let after = canvas_samples(canvas);
                let s = sample_index(w as int, x as int, y as int);
                lemma_cell_in_bounds(w, h, x, y);
                assert(eval.ensures((x, y), count));
                assert(shows_at(after, s, x, y, eval));
                assert forall|i: u32, j: u32|
                    (i < x && j < h) || (i == x && j < y) implies #[trigger] shows_at(
                    after,
                    sample_index(w as int, i as int, j as int),
                    i,
                    j,
                    eval,
                ) by {
                    lemma_cells_apart(w, i, j, x, y);
                    lemma_cell_in_bounds(w, h, i, j);
                    lemma_shown_kept(
                        before,
                        after,
                        sample_index(w as int, i as int, j as int),
                        i,
                        j,
                        eval,
                    );
                }
            }
            y += 1;
        }
        x += 1;
    }
    into_samples(canvas)
}

/// Renders row `y` alone into `row`, which holds its `w` pixels: the unit of
/// work that row-parallel rendering hands to each worker.
pub fn render_row<F: Fn(u32, u32) -> usize>(row: &mut [u8], y: u32, w: u32, eval: F)
    requires
        old(row)@.len() == 3 * w,
        forall|x: u32| x < w ==> eval.requires((x, y)),
    ensures
        depicts_row(final(row)@, w, y, eval),
{
    let len = row.len();
    let mut x: u32 = 0;
    while x < w
        invariant
            x <= w,
            row@.len() == 3 * w,
            len == 3 * w,
            forall|i: u32| i < w ==> eval.requires((i, y)),
            forall|i: u32|
                i < x ==> #[trigger] shows_at(row@, sample_index(w as int, i as int, 0), i, y, eval),
        decreases w - x,
    {
        let count = eval(x, y);
        let colour = get_colour(count);
        let s: usize = 3 * x as usize;
        let ghost before = row@;
        row[s] = colour[0];
        row[s + 1] = colour[1];
        row[s + 2] = colour[2];
        proof {
            assert(sample_index(w as int, x as int, 0) == s);
            assert(eval.ensures((x, y), count));
            assert(shows_at(row@, s as int, x, y, eval));
            assert forall|i: u32| i < x implies #[trigger] shows_at(
                row@,
                sample_index(w as int, i as int, 0),
                i,
                y,
                eval,
            ) by {
                lemma_shown_kept(before, row@, sample_index(w as int, i as int, 0), i, y, eval);
            }
        }
        x += 1;
    }
}

proof fn lemma_row_in_bounds(w: u32, h: u32, y: u32)
    requires
        y < h,
    ensures
        0 <= 3 * w * y,
        3 * w * (y + 1) == 3 * w * y + 3 * w,
        3 * w * (y + 1) <= 3 * w * h,
{
    assert(0 <= 3 * w * y) by (nonlinear_arith);
    assert(3 * w * (y + 1) == 3 * w * y + 3 * w) by (nonlinear_arith);
    assert(3 * w * (y + 1) <= 3 * w * h) by (nonlinear_arith)
        requires
            y < h,
    ;
}

/// Rows rendered each on its own, by any worker and in any order, make up a
/// buffer that depicts the whole grid: row-parallel rendering yields what
/// the sequential renderer yields.
pub proof fn lemma_rows_make_grid<F: Fn(u32, u32) -> usize>(
    samples: Seq<u8>,
    w: u32,
    h: u32,
    eval: F,
)
    requires
        samples.len() == 3 * w * h,
        forall|y: u32| y < h ==> #[trigger] depicts_row(row_of(samples, w, y), w, y, eval),
    ensures
        depicts(samples, w, h, eval),
{
    assert forall|x: u32, y: u32| x < w && y < h implies #[trigger] shows_at(
        samples,
        sample_index(w as int, x as int, y as int),
        x,
        y,
        eval,
    ) by {
        lemma_row_in_bounds(w, h, y);
        lemma_cell_in_bounds(w, h, x, y);
        let row = row_of(samples, w, y);
        assert(depicts_row(row, w, y, eval));
        let s = sample_index(w as int, x as int, 0);
        assert(s == 3 * x);
        assert(shows_at(row, s, x, y, eval));
        let c = choose|c: usize|
            #[trigger] eval.ensures((x, y), c) && row[s] == shade_of(c) && row[s + 1] == shade_of(c)
                && row[s + 2] == shade_of(c);
        assert(eval.ensures((x, y), c));
    }
}

/// Two buffers that depict the same grid are identical wherever their
/// evaluators never disagree on the count of a point: the image depends on
/// the counts alone, whichever strategy computed them.
pub proof fn lemma_agreeing_counts_give_equal_images<F: Fn(u32, u32) -> usize, G: Fn(u32, u32) -> usize>(
    a: Seq<u8>,
    b: Seq<u8>,
    w: u32,
    h: u32,
    e: F,
    g: G,
)
    requires
        depicts(a, w, h, e),
        depicts(b, w, h, g),
        forall|x: u32, y: u32, c: usize, d: usize|
            x < w && y < h && #[trigger] e.ensures((x, y), c) && #[trigger] g.ensures((x, y), d)
                ==> c == d,
    ensures
        a == b,
{
    assert forall|i: int| 0 <= i < a.len() implies a[i] == b[i] by {
        let p = i / 3;
        let k = i % 3;
        lemma_fundamental_div_mod(i, 3);
        lemma_mod_pos_bound(i, 3);
        assert(0 <= p < w * h) by (nonlinear_arith)
            requires
                i == 3 * p + k,
                0 <= k < 3,
                0 <= i < 3 * w * h,
        ;
        assert(w > 0) by (nonlinear_arith)
            requires
                0 <= p < w * h,
        ;
        let xi = p % (w as int);
        let yi = p / (w as int);
        lemma_fundamental_div_mod(p, w as int);
        lemma_mod_pos_bound(p, w as int);
        assert(0 <= yi < h) by (nonlinear_arith)
            requires
                p == w * yi + xi,
                0 <= xi < w,
                0 <= p < w * h,
        ;
        let x = xi as u32;
        let y = yi as u32;
        let s = sample_index(w as int, x as int, y as int);
        assert(s == i - k) by (nonlinear_arith)
            requires
                s == 3 * (y * w + x),
                p == w * y + x,
                i == 3 * p + k,
        ;
        assert(shows_at(a, s, x, y, e));
        assert(shows_at(b, s, x, y, g));
        let c = choose|c: usize|
            #[trigger] e.ensures((x, y), c) && a[s] == shade_of(c) && a[s + 1] == shade_of(c)
                && a[s + 2] == shade_of(c);
        let d = choose|d: usize|
            #[trigger] g.ensures((x, y), d) && b[s] == shade_of(d) && b[s + 1] == shade_of(d)
                && b[s + 2] == shade_of(d);
        assert(c == d);
    }
    assert(a =~= b);
}

/// Rendering the same grid twice with an evaluator that gives each point a
/// single count yields byte-identical images.
pub proof fn lemma_rendering_is_deterministic<F: Fn(u32, u32) -> usize>(
    a: Seq<u8>,
    b: Seq<u8>,
    w: u32,
    h: u32,
    eval: F,
)
    requires
        depicts(a, w, h, eval),
        depicts(b, w, h, eval),
        forall|x: u32, y: u32, c: usize, d: usize|
            x < w && y < h && #[trigger] eval.ensures((x, y), c) && #[trigger] eval.ensures((x, y), d)
                ==> c == d,
    ensures
        a == b,
{
    lemma_agreeing_counts_give_equal_images(a, b, w, h, eval, eval);
}

} // verus!
