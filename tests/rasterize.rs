use mandelbrot::{create_mandelbrot, get_colour, render_row, MAX_ITERATIONS};
use num::complex::Complex;
use rayon::prelude::{IndexedParallelIterator, ParallelIterator, ParallelSliceMut};

fn coordinate_of(x: u32, y: u32, w: u32, h: u32) -> (f32, f32) {
    ((x as f32 / w as f32) * 3.5 - 2.5, (y as f32 / h as f32) * 2.0 - 1.0)
}

fn escape_scalar(x0: f32, y0: f32) -> usize {
    let mut iter: usize = 0;
    let mut x: f32 = 0.0;
    let mut y: f32 = 0.0;
    let mut x_sqr: f32 = 0.0;
    let mut y_sqr: f32 = 0.0;
    while x_sqr + y_sqr <= 4.0 && iter < MAX_ITERATIONS {
        let xt = x_sqr - y_sqr + x0;
        y = 2.0 * x * y + y0;
        x = xt;
        x_sqr = x * x;
        y_sqr = y * y;
        iter += 1;
    }
    iter
}

fn escape_complex(origin: Complex<f32>) -> usize {
    let mut z = Complex::new(0.0, 0.0);
    let mut iter: usize = 0;
    while z.norm_sqr() <= 4.0 && iter < MAX_ITERATIONS {
        z = z * z + origin;
        iter += 1;
    }
    iter
}

fn scalar_at(w: u32, h: u32) -> impl Fn(u32, u32) -> usize {
    move |x, y| {
        let (x0, y0) = coordinate_of(x, y, w, h);
        escape_scalar(x0, y0)
    }
}

fn complex_at(w: u32, h: u32) -> impl Fn(u32, u32) -> usize {
    move |x, y| {
        let (x0, y0) = coordinate_of(x, y, w, h);
        escape_complex(Complex::new(x0, y0))
    }
}

fn render_by_rows<F: Fn(u32, u32) -> usize + Sync>(w: u32, h: u32, eval: &F) -> Vec<u8> {
    let mut samples = vec![0u8; 3 * w as usize * h as usize];
    samples
        .par_chunks_mut(3 * w as usize)
        .enumerate()
        .for_each(|(y, row)| render_row(row, y as u32, w, eval));
    samples
}

fn pixel(samples: &[u8], w: u32, x: u32, y: u32) -> [u8; 3] {
    let i = 3 * (y as usize * w as usize + x as usize);
    [samples[i], samples[i + 1], samples[i + 2]]
}

#[test]
fn colour_of_a_point_in_the_set_is_white() {
    assert_eq!(get_colour(MAX_ITERATIONS), [255, 255, 255]);
}

#[test]
fn colour_below_the_cap_is_the_count_in_grey() {
    assert_eq!(get_colour(0), [0, 0, 0]);
    assert_eq!(get_colour(1), [1, 1, 1]);
    assert_eq!(get_colour(42), [42, 42, 42]);
    assert_eq!(get_colour(99), [99, 99, 99]);
}

#[test]
fn colour_wraps_modulo_255_above_the_cap() {
    assert_eq!(get_colour(254), [254, 254, 254]);
    assert_eq!(get_colour(255), [0, 0, 0]);
    assert_eq!(get_colour(300), [45, 45, 45]);
}

#[test]
fn each_pixel_lands_at_its_row_major_place() {
    let (w, h) = (5u32, 3u32);
    let samples = create_mandelbrot(w, h, |x: u32, y: u32| (x + 10 * y) as usize);
    assert_eq!(samples.len(), 45);
    for y in 0..h {
        for x in 0..w {
            let c = (x + 10 * y) as u8;
            assert_eq!(pixel(&samples, w, x, y), [c, c, c]);
        }
    }
    assert_eq!(pixel(&samples, w, 4, 2), [24, 24, 24]);
}

#[test]
fn cap_count_anywhere_gives_white_pixels() {
    let samples = create_mandelbrot(4, 2, |x: u32, _y: u32| if x == 2 { MAX_ITERATIONS } else { 7 });
    assert_eq!(pixel(&samples, 4, 2, 0), [255, 255, 255]);
    assert_eq!(pixel(&samples, 4, 2, 1), [255, 255, 255]);
    assert_eq!(pixel(&samples, 4, 1, 1), [7, 7, 7]);
}

#[test]
fn empty_grid_has_no_samples() {
    assert!(create_mandelbrot(0, 7, |_x: u32, _y: u32| 3usize).is_empty());
    assert!(create_mandelbrot(7, 0, |_x: u32, _y: u32| 3usize).is_empty());
}

#[test]
fn one_row_renders_only_its_own_points() {
    let mut row = vec![9u8; 12];
    render_row(&mut row, 5, 4, |x: u32, y: u32| (x * 100 + y) as usize);
    assert_eq!(row, vec![5, 5, 5, 105, 105, 105, 205, 205, 205, 50, 50, 50]);
}

#[test]
fn rendering_twice_gives_identical_images() {
    let first = create_mandelbrot(64, 48, scalar_at(64, 48));
    let second = create_mandelbrot(64, 48, scalar_at(64, 48));
    assert_eq!(first, second);
}

#[test]
fn strategies_agree_pixel_by_pixel() {
    let (w, h) = (64u32, 64u32);
    let scalar = create_mandelbrot(w, h, scalar_at(w, h));
    let complex = create_mandelbrot(w, h, complex_at(w, h));
    let parallel = render_by_rows(w, h, &scalar_at(w, h));
    assert_eq!(scalar.len(), 3 * 64 * 64);
    for y in 0..h {
        for x in 0..w {
            assert_eq!(pixel(&scalar, w, x, y), pixel(&complex, w, x, y));
            assert_eq!(pixel(&scalar, w, x, y), pixel(&parallel, w, x, y));
        }
    }
}

#[test]
fn row_parallel_matches_sequential_with_integer_counts() {
    let eval = |x: u32, y: u32| (x * 7 + y * 3) as usize;
    assert_eq!(render_by_rows(9, 6, &eval), create_mandelbrot(9, 6, eval));
}

#[test]
fn corner_escapes_at_once_and_origin_stays() {
    let (w, h) = (64u32, 64u32);
    let samples = create_mandelbrot(w, h, scalar_at(w, h));
    assert_eq!(coordinate_of(0, 0, w, h), (-2.5, -1.0));
    assert_eq!(pixel(&samples, w, 0, 0), [1, 1, 1]);
    assert_eq!(pixel(&samples, w, 45, 32), [255, 255, 255]);
}

#[test]
fn origin_never_escapes() {
    assert_eq!(escape_scalar(0.0, 0.0), MAX_ITERATIONS);
    assert_eq!(escape_complex(Complex::new(0.0, 0.0)), MAX_ITERATIONS);
}

#[test]
fn far_points_escape_within_two_steps() {
    for &(x0, y0) in &[(-2.5f32, -1.0f32), (3.0, 0.0), (0.0, -2.1), (1.5, 1.5)] {
        assert!(escape_scalar(x0, y0) <= 2);
        assert_eq!(escape_scalar(x0, y0), escape_complex(Complex::new(x0, y0)));
    }
}
