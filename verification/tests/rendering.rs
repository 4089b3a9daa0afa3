//! The two renderers, the plane mapper, the coloring branches, and the
//! end-to-end scenario on a small raster.

use mandelbrot::fixed::SCALE;
use mandelbrot::plane::{Viewport, RenderConfig, PlaneMapper, ComplexSample};
use mandelbrot::escape::{evaluate, EscapeOutcome};
use mandelbrot::color::{colorize, Color};
use mandelbrot::render::{render_sequential, render_parallel, pixel_at, write_pixels, Image};

fn small_config() -> RenderConfig {
    let vp = Viewport { re_min: -2 * SCALE, re_max: SCALE, im_min: -SCALE, im_max: SCALE };
    RenderConfig::new(vp, 4, 4, 50).unwrap()
}

#[test]
fn mapper_hits_lower_corner_exactly() {
    let cfg = small_config();
    let m = PlaneMapper::new(&cfg);
    let s = m.map(0, 0);
    assert_eq!(s.re, -2 * SCALE);
    assert_eq!(s.im, -SCALE);
}

#[test]
fn mapper_stays_strictly_below_upper_bounds() {
    let cfg = small_config();
    let m = PlaneMapper::new(&cfg);
    for y in 0..4u32 {
        for x in 0..4u32 {
            let s = m.map(x, y);
            assert!(s.re >= cfg.viewport.re_min && s.re < cfg.viewport.re_max);
            assert!(s.im >= cfg.viewport.im_min && s.im < cfg.viewport.im_max);
        }
    }
}

#[test]
fn image_set_then_get() {
    let mut img = Image::new(3, 2);
    assert_eq!(img.get_pixel(2, 1), Color { r: 0, g: 0, b: 0 });
    img.set_pixel(2, 1, Color { r: 9, g: 8, b: 7 });
    assert_eq!(img.get_pixel(2, 1), Color { r: 9, g: 8, b: 7 });
    assert_eq!(img.get_pixel(0, 0), Color { r: 0, g: 0, b: 0 });
}

#[test]
fn coloring_branches_differ_at_the_budget_boundary() {
    // One step short of the budget: the exterior hue formula.
    let escaped = EscapeOutcome {
        iteration_count: 49,
        final_value: ComplexSample { re: 123, im: -456 },
    };
    // The full budget: the interior, angle-based formula.
    let interior = EscapeOutcome {
        iteration_count: 50,
        final_value: ComplexSample { re: 0, im: 0 },
    };
    let a = colorize(escaped, 50);
    let b = colorize(interior, 50);
    assert_eq!(a, Color { r: 255, g: 0, b: 30 });
    assert_eq!(b, Color { r: 0, g: 255, b: 255 });
    assert_ne!(a, b);
}

#[test]
fn sequential_render_is_idempotent() {
    let cfg = small_config();
    let one = render_sequential(&cfg);
    let two = render_sequential(&cfg);
    assert_eq!(one.pixels, two.pixels);
}

#[test]
fn parallel_matches_sequential() {
    let cfg = small_config();
    let seq = render_sequential(&cfg);
    let par = render_parallel(&cfg);
    assert_eq!(seq.pixels, par.pixels);
}

#[test]
fn parallel_output_is_thread_count_independent() {
    let vp = Viewport { re_min: -2 * SCALE, re_max: SCALE, im_min: -SCALE, im_max: SCALE };
    let cfg = RenderConfig::new(vp, 16, 16, 100).unwrap();
    let seq = render_sequential(&cfg);
    let pool1 = rayon::ThreadPoolBuilder::new().num_threads(1).build().unwrap();
    let pool4 = rayon::ThreadPoolBuilder::new().num_threads(4).build().unwrap();
    let par1 = pool1.install(|| render_parallel(&cfg));
    let par4 = pool4.install(|| render_parallel(&cfg));
    assert_eq!(seq.pixels, par1.pixels);
    assert_eq!(seq.pixels, par4.pixels);
}

#[test]
fn write_back_order_does_not_matter() {
    // Writes are keyed by coordinate: handing the per-pixel results to
    // the write-back pass in reverse order reproduces the rendered image.
    let cfg = small_config();
    let m = PlaneMapper::new(&cfg);
    let mut reversed = Vec::new();
    for i in (0..16usize).rev() {
        reversed.push(pixel_at(&cfg, &m, i));
    }
    let mut img = Image::new(cfg.width, cfg.height);
    write_pixels(&mut img, &reversed);
    let seq = render_sequential(&cfg);
    assert_eq!(img.pixels, seq.pixels);
}

#[test]
fn end_to_end_small_raster() {
    // width=4, height=4, viewport (-2, 1) x (-1, 1), 50 iterations.
    let cfg = small_config();
    let m = PlaneMapper::new(&cfg);

    // Pixel (0, 0) samples exactly (-2, -1), which escapes immediately.
    let s00 = m.map(0, 0);
    assert_eq!(s00, ComplexSample { re: -2 * SCALE, im: -SCALE });
    let o00 = evaluate(s00, cfg.max_iterations);
    assert!(o00.iteration_count < 5);

    // Pixel (2, 2) samples exactly (-0.5, 0), a known interior point.
    let s22 = m.map(2, 2);
    assert_eq!(s22, ComplexSample { re: -SCALE / 2, im: 0 });
    let o22 = evaluate(s22, cfg.max_iterations);
    assert_eq!(o22.iteration_count, cfg.max_iterations);

    // The rendered image agrees with the per-pixel pipeline.
    let img = render_sequential(&cfg);
    assert_eq!(img.get_pixel(0, 0), colorize(o00, cfg.max_iterations));
    assert_eq!(img.get_pixel(2, 2), colorize(o22, cfg.max_iterations));
}
