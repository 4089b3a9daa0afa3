//! The two renderers.
//!
//! The sequential renderer walks the raster row-major and writes each
//! pixel's color straight into the image buffer. The parallel renderer
//! computes every pixel independently — per-pixel work is a pure function
//! of the configuration — collects the results, and writes them back
//! keyed by coordinate in a single-threaded pass. Both carry the same
//! contract: every pixel of the finished image holds `pixel_color`, so
//! the two outputs are identical regardless of thread count or schedule.

use vstd::prelude::*;
use vstd::arithmetic::div_mod::{
    lemma_mod_bound, lemma_multiply_divide_lt, lemma_fundamental_div_mod,
    lemma_fundamental_div_mod_converse_mod, lemma_fundamental_div_mod_converse_div,
};
use vstd::arithmetic::mul::{lemma_mul_inequality, lemma_mul_is_commutative};
use crate::plane::{RenderConfig, PlaneMapper, ComplexSample, sample_re, sample_im};
use crate::escape::{evaluate, escape_run, EscapeOutcome};
use crate::color::{Color, colorize, colorize_spec};
use rayon::iter::{IntoParallelIterator, ParallelIterator, IndexedParallelIterator};

verus! {

/// The complex sample of pixel `(x, y)` under `cfg`.
pub open spec fn sample_of(cfg: RenderConfig, x: int, y: int) -> ComplexSample {
    ComplexSample {
        re: sample_re(cfg, x) as i64,
        im: sample_im(cfg, y) as i64,
    }
}

/// The escape outcome of pixel `(x, y)` under `cfg`.
pub open spec fn outcome_of(cfg: RenderConfig, x: int, y: int) -> EscapeOutcome {
    let r = escape_run(sample_of(cfg, x, y), cfg.max_iterations);
    EscapeOutcome {
        iteration_count: r.2 as u32,
        final_value: ComplexSample { re: r.0 as i64, im: r.1 as i64 },
    }
}

/// The color of pixel `(x, y)` under `cfg`: the whole pipeline, as one
/// function of the configuration and the coordinates alone.
pub open spec fn pixel_color(cfg: RenderConfig, x: int, y: int) -> Color {
    colorize_spec(outcome_of(cfg, x, y), cfg.max_iterations)
}

/// Row-major position of `(x, y)` in a `w`-wide grid, with its converses.
pub proof fn lemma_grid_index(w: int, h: int, x: int, y: int)
    requires
        0 <= x < w,
        0 <= y < h,
    ensures
        0 <= y * w + x < w * h,
        (y * w + x) % w == x,
        (y * w + x) / w == y,
{
    lemma_mul_inequality(y, h - 1, w);
    assert((h - 1) * w == h * w - w) by (nonlinear_arith);
    vstd::arithmetic::mul::lemma_mul_nonnegative(y, w);
    lemma_mul_is_commutative(w, h);
    lemma_fundamental_div_mod_converse_mod(y * w + x, w, y, x);
    lemma_fundamental_div_mod_converse_div(y * w + x, w, y, x);
}

/// A dense raster of colors, row-major.
pub struct Image {
    pub width: u32,
    pub height: u32,
    pub pixels: Vec<Color>,
}

impl Image {
    /// The buffer holds exactly one color per pixel.
    pub open spec fn wf(self) -> bool {
        self.pixels.len() == (self.width as int) * (self.height as int)
    }

    /// The color stored for pixel `(x, y)`.
    pub open spec fn color_at(self, x: int, y: int) -> Color {
        self.pixels[y * (self.width as int) + x]
    }

    /// Allocates a raster of the given size, all pixels black.
    pub fn new(width: u32, height: u32) -> (img: Image)
        requires
            (width as int) * (height as int) <= usize::MAX as int,
        ensures
            img.wf(),
            img.width == width,
            img.height == height,
            forall|x: int, y: int| 0 <= x < width && 0 <= y < height ==>
                img.color_at(x, y) == (Color { r: 0, g: 0, b: 0 }),
    {
        let n: usize = (width as usize) * (height as usize);
        let mut pixels: Vec<Color> = Vec::new();
        let mut i: usize = 0;
        while i < n
            invariant
                i <= n,
                pixels.len() == i,
                forall|j: int| 0 <= j < i ==> pixels[j] == (Color { r: 0, g: 0, b: 0 }),
            decreases n - i,
        {
            pixels.push(Color { r: 0, g: 0, b: 0 });
            i = i + 1;
        }
        let img = Image { width, height, pixels };
        proof {
            assert forall|x: int, y: int| 0 <= x < width && 0 <= y < height implies
                img.color_at(x, y) == (Color { r: 0, g: 0, b: 0 }) by {
                lemma_grid_index(width as int, height as int, x, y);
            }
        }
        img
    }

    /// Overwrites pixel `(x, y)` with `color`, touching nothing else.
    pub fn set_pixel(&mut self, x: u32, y: u32, color: Color)
        requires
            old(self).wf(),
            x < old(self).width,
            y < old(self).height,
        ensures
            final(self).wf(),
            final(self).width == old(self).width,
            final(self).height == old(self).height,
            final(self).pixels@ == old(self).pixels@.update(
                (y as int) * (old(self).width as int) + (x as int), color),
    {
        proof {
            lemma_grid_index(self.width as int, self.height as int, x as int, y as int);
        }
        let idx: usize = (y as usize) * (self.width as usize) + (x as usize);
        self.pixels.set(idx, color);
    }

    /// Reads pixel `(x, y)`.
    pub fn get_pixel(&self, x: u32, y: u32) -> (c: Color)
        requires
            self.wf(),
            x < self.width,
            y < self.height,
        ensures
            c == self.color_at(x as int, y as int),
    {
        proof {
            lemma_grid_index(self.width as int, self.height as int, x as int, y as int);
        }
        let idx: usize = (y as usize) * (self.width as usize) + (x as usize);
        self.pixels[idx]
    }
}

/// An image holds the rendered grid of `cfg` when every pixel carries
/// `pixel_color`.
pub open spec fn is_rendered(img: Image, cfg: RenderConfig) -> bool {
    &&& img.wf()
    &&& img.width == cfg.width
    &&& img.height == cfg.height
    &&& forall|x: int, y: int| 0 <= x < cfg.width && 0 <= y < cfg.height ==>
        img.color_at(x, y) == pixel_color(cfg, x, y)
}

/// Renders one pixel: sample, iterate, colorize.
fn render_one(m: &PlaneMapper, cfg: &RenderConfig, x: u32, y: u32) -> (c: Color)
    requires
        m.wf_for(*cfg),
        x < cfg.width,
        y < cfg.height,
    ensures
        c == pixel_color(*cfg, x as int, y as int),
{
    let s = m.map(x, y);
    let o = evaluate(s, cfg.max_iterations);
    let c = colorize(o, cfg.max_iterations);
    proof {
        assert(s == sample_of(*cfg, x as int, y as int));
        assert(o == outcome_of(*cfg, x as int, y as int));
    }
    c
}

/// Renders the whole raster row-major, one pixel at a time, writing each
/// color straight into the buffer.
pub fn render_sequential(cfg: &RenderConfig) -> (img: Image)
    requires
        cfg.wf(),
    ensures
        is_rendered(img, *cfg),
{
    let m = PlaneMapper::new(cfg);
    let mut img = Image::new(cfg.width, cfg.height);
    let w = cfg.width;
    let h = cfg.height;
    let mut y: u32 = 0;
    while y < h
        invariant
            cfg.wf(),
            m.wf_for(*cfg),
            w == cfg.width,
            h == cfg.height,
            img.wf(),
            img.width == w,
            img.height == h,
            y <= h,
            forall|px: int, py: int| 0 <= px < w && 0 <= py < y ==>
                img.color_at(px, py) == pixel_color(*cfg, px, py),
        decreases h - y,
    {
        let mut x: u32 = 0;
        while x < w
            invariant
                cfg.wf(),
                m.wf_for(*cfg),
                w == cfg.width,
                h == cfg.height,
                img.wf(),
                img.width == w,
                img.height == h,
                y < h,
                x <= w,
                forall|px: int, py: int| 0 <= px < w && 0 <= py < y ==>
                    img.color_at(px, py) == pixel_color(*cfg, px, py),
                forall|px: int| 0 <= px < x ==>
                    img.color_at(px, y as int) == pixel_color(*cfg, px, y as int),
            decreases w - x,
        {
            let c = render_one(&m, cfg, x, y);
            let ghost prev = img;
            img.set_pixel(x, y, c);
            proof {
                lemma_grid_index(w as int, h as int, x as int, y as int);
                assert forall|px: int, py: int|
                    0 <= px < w && 0 <= py < h && (px != x || py != y)
                    implies img.color_at(px, py) == prev.color_at(px, py) by {
                    lemma_grid_index(w as int, h as int, px, py);
                }
            }
            x = x + 1;
        }
        y = y + 1;
    }
    img
}

/// The result of one pixel's computation: its coordinates and color.
#[derive(Clone, Copy, PartialEq, Eq, Structural, Debug)]
pub struct PixelResult {
    pub x: u32,
    pub y: u32,
    pub color: Color,
}

/// What computing flat index `i` must yield: column `i % width`,
/// row `i / width`, and that pixel's color.
pub open spec fn pixel_result_spec(cfg: RenderConfig, i: int) -> PixelResult {
    let w = cfg.width as int;
    PixelResult {
        x: (i % w) as u32,
        y: (i / w) as u32,
        color: pixel_color(cfg, i % w, i / w),
    }
}

/// Computes the pixel at flat index `i`. Pure: the result depends on the
/// configuration and `i` alone, which is what makes the parallel
/// decomposition safe.
pub fn pixel_at(cfg: &RenderConfig, m: &PlaneMapper, i: usize) -> (p: PixelResult)
    requires
        m.wf_for(*cfg),
        i < (cfg.width as int) * (cfg.height as int),
    ensures
        p == pixel_result_spec(*cfg, i as int),
{
    let w = cfg.width;
    proof {
        lemma_mod_bound(i as int, w as int);
        lemma_multiply_divide_lt(i as int, w as int, cfg.height as int);
        vstd::arithmetic::div_mod::lemma_div_pos_is_pos(i as int, w as int);
    }
    let x: u32 = (i % (w as usize)) as u32;
    let y: u32 = (i / (w as usize)) as u32;
    let c = render_one(m, cfg, x, y);
    PixelResult { x, y, color: c }
}

/// True when some triple of `ts` targets pixel `(x, y)`.
pub open spec fn writes_pixel(ts: Seq<PixelResult>, x: int, y: int) -> bool {
    exists|k: int| 0 <= k < ts.len() && ts[k].x == x && ts[k].y == y
}

/// True when every triple of `ts` that targets `(x, y)` carries `c`.
pub open spec fn writes_agree(ts: Seq<PixelResult>, x: int, y: int, c: Color) -> bool {
    forall|k: int| 0 <= k < ts.len() && ts[k].x == x && ts[k].y == y
        ==> (#[trigger] ts[k]).color == c
}

/// Writes every triple into the buffer at its own coordinates, first to
/// last. A pixel no triple targets keeps its color, and a pixel whose
/// triples all carry one color ends up with it — wherever those triples
/// sit in the list. Writes are keyed by coordinate, so the order in
/// which a parallel phase collected the triples cannot matter.
pub fn write_pixels(img: &mut Image, ts: &Vec<PixelResult>)
    requires
        old(img).wf(),
        forall|k: int| 0 <= k < ts@.len() ==>
            (#[trigger] ts@[k]).x < old(img).width && ts@[k].y < old(img).height,
    ensures
        final(img).wf(),
        final(img).width == old(img).width,
        final(img).height == old(img).height,
        forall|x: int, y: int|
            0 <= x < old(img).width && 0 <= y < old(img).height
                && !(#[trigger] writes_pixel(ts@, x, y))
            ==> final(img).color_at(x, y) == old(img).color_at(x, y),
        forall|x: int, y: int, c: Color|
            0 <= x < old(img).width && 0 <= y < old(img).height
                && writes_pixel(ts@, x, y) && #[trigger] writes_agree(ts@, x, y, c)
            ==> final(img).color_at(x, y) == c,
{
    let ghost w = old(img).width as int;
    let ghost h = old(img).height as int;
    let mut k: usize = 0;
    while k < ts.len()
        invariant
            img.wf(),
            img.width == old(img).width,
            img.height == old(img).height,
            w == old(img).width as int,
            h == old(img).height as int,
            k <= ts@.len(),
            forall|j: int| 0 <= j < ts@.len() ==>
                (#[trigger] ts@[j]).x < w && ts@[j].y < h,
            forall|x: int, y: int|
                0 <= x < w && 0 <= y < h && !(#[trigger] writes_pixel(ts@.take(k as int), x, y))
                ==> img.color_at(x, y) == old(img).color_at(x, y),
            forall|x: int, y: int|
                0 <= x < w && 0 <= y < h && #[trigger] writes_pixel(ts@.take(k as int), x, y)
                ==> exists|j: int| 0 <= j < k && ts@[j].x == x && ts@[j].y == y
                    && img.color_at(x, y) == (#[trigger] ts@[j]).color,
        decreases ts@.len() - k,
    {
        let p = ts[k];
        let ghost prev = *img;
        img.set_pixel(p.x, p.y, p.color);
        proof {
            let kk = k as int;
            assert(ts@.take(kk + 1)[kk] == ts@[kk]);
            assert forall|j: int| 0 <= j < kk implies ts@.take(kk + 1)[j] == ts@.take(kk)[j] by {}
            lemma_grid_index(w, h, p.x as int, p.y as int);
            assert forall|x: int, y: int|
                0 <= x < w && 0 <= y < h && !(#[trigger] writes_pixel(ts@.take(kk + 1), x, y))
                implies img.color_at(x, y) == old(img).color_at(x, y) by {
                assert(!(ts@[kk].x == x && ts@[kk].y == y));
                assert(!writes_pixel(ts@.take(kk), x, y)) by {
                    if writes_pixel(ts@.take(kk), x, y) {
                        let j = choose|j: int| 0 <= j < kk
                            && (#[trigger] ts@.take(kk)[j]).x == x && ts@.take(kk)[j].y == y;
                        assert(ts@.take(kk + 1)[j] == ts@.take(kk)[j]);
                    }
                }
                lemma_grid_index(w, h, x, y);
            }
            assert forall|x: int, y: int|
                0 <= x < w && 0 <= y < h && #[trigger] writes_pixel(ts@.take(kk + 1), x, y)
                implies exists|j: int| 0 <= j < kk + 1 && ts@[j].x == x && ts@[j].y == y
                    && img.color_at(x, y) == (#[trigger] ts@[j]).color by {
                lemma_grid_index(w, h, x, y);
                if ts@[kk].x == x && ts@[kk].y == y {
                    assert(img.color_at(x, y) == ts@[kk].color);
                } else {
                    assert(writes_pixel(ts@.take(kk), x, y)) by {
                        let j = choose|j: int| 0 <= j < kk + 1
                            && (#[trigger] ts@.take(kk + 1)[j]).x == x && ts@.take(kk + 1)[j].y == y;
                        assert(j < kk);
                        assert(ts@.take(kk)[j] == ts@.take(kk + 1)[j]);
                    }
                    let j = choose|j: int| 0 <= j < kk && ts@[j].x == x && ts@[j].y == y
                        && prev.color_at(x, y) == (#[trigger] ts@[j]).color;
                    assert(img.color_at(x, y) == prev.color_at(x, y));
                }
            }
        }
        k = k + 1;
    }
    proof {
        assert(ts@.take(ts@.len() as int) =~= ts@);
        assert forall|x: int, y: int, c: Color|
            0 <= x < w && 0 <= y < h
                && writes_pixel(ts@, x, y) && #[trigger] writes_agree(ts@, x, y, c)
            implies img.color_at(x, y) == c by {
            let j = choose|j: int| 0 <= j < k && ts@[j].x == x && ts@[j].y == y
                && img.color_at(x, y) == (#[trigger] ts@[j]).color;
            assert(ts@[j].color == c);
        }
    }
}

/// Relies on rayon's `IndexedParallelIterator::collect_into_vec` over a
/// mapped index range: the closure runs once for every index of
/// `0..n` — on whatever threads the pool schedules — and each result is
/// stored at its own index, exactly as a sequential map would store it.
#[verifier::external_body]
fn par_pixels(cfg: &RenderConfig, m: &PlaneMapper, n: usize) -> (r: Vec<PixelResult>)
    requires
        m.wf_for(*cfg),
        n == (cfg.width as int) * (cfg.height as int),
    ensures
        r@.len() == n,
        forall|i: int| 0 <= i < n ==> r@[i] == pixel_result_spec(*cfg, i),
{
    let mut results: Vec<PixelResult> = Vec::new();
    (0..n).into_par_iter().map(|i| pixel_at(cfg, m, i)).collect_into_vec(&mut results);
    results
}

/// Renders the raster by computing every pixel independently in a
/// thread pool, then writing the collected results back into the buffer
/// keyed by their own coordinates, in one single-threaded pass.
///
/// The contract is the same as `render_sequential`'s: the output is
/// pixel-identical to the sequential render, whatever the thread count
/// or schedule.
pub fn render_parallel(cfg: &RenderConfig) -> (img: Image)
    requires
        cfg.wf(),
    ensures
        is_rendered(img, *cfg),
{
    let m = PlaneMapper::new(cfg);
    let n: usize = (cfg.width as usize) * (cfg.height as usize);
    let results = par_pixels(cfg, &m, n);
    let mut img = Image::new(cfg.width, cfg.height);
    let ghost w = cfg.width as int;
    let ghost h = cfg.height as int;
    proof {
        assert forall|k: int| 0 <= k < results@.len() implies
            (#[trigger] results@[k]).x < cfg.width && results@[k].y < cfg.height by {
            lemma_mod_bound(k, w);
            lemma_multiply_divide_lt(k, w, h);
            vstd::arithmetic::div_mod::lemma_div_pos_is_pos(k, w);
            assert(results@[k] == pixel_result_spec(*cfg, k));
            assert(0 <= k % w < w);
            assert(0 <= k / w < h);
        }
    }
    write_pixels(&mut img, &results);
    proof {
        assert forall|x: int, y: int| 0 <= x < cfg.width && 0 <= y < cfg.height implies
            img.color_at(x, y) == pixel_color(*cfg, x, y) by {
            lemma_grid_index(w, h, x, y);
            let i = y * w + x;
            // Pixel (x, y) is targeted: the triple at flat index i carries it.
            assert(results@[i] == pixel_result_spec(*cfg, i));
            assert(results@[i].x == x && results@[i].y == y);
            assert(writes_pixel(results@, x, y));
            // And every triple that targets (x, y) carries its one color:
            // a triple's coordinates determine its flat index, hence its color.
            assert forall|k: int|
                0 <= k < results@.len() && results@[k].x == x && results@[k].y == y
                implies (#[trigger] results@[k]).color == pixel_color(*cfg, x, y) by {
                lemma_mod_bound(k, w);
                lemma_multiply_divide_lt(k, w, h);
                vstd::arithmetic::div_mod::lemma_div_pos_is_pos(k, w);
                assert(results@[k] == pixel_result_spec(*cfg, k));
                assert(k % w == x && k / w == y);
                lemma_fundamental_div_mod(k, w);
                lemma_mul_is_commutative(w, k / w);
                assert(k == i);
            }
            assert(writes_agree(results@, x, y, pixel_color(*cfg, x, y)));
        }
    }
    img
}

/// Rendering is deterministic and schedule-independent: any two images
/// that hold the rendered grid of the same configuration — two sequential
/// renders, or a sequential and a parallel one — are identical,
/// byte for byte.
pub proof fn lemma_renders_agree(cfg: RenderConfig, a: Image, b: Image)
    requires
        cfg.wf(),
        is_rendered(a, cfg),
        is_rendered(b, cfg),
    ensures
        a.pixels@ == b.pixels@,
{
    let w = cfg.width as int;
    let h = cfg.height as int;
    assert forall|i: int| 0 <= i < a.pixels@.len() implies
        a.pixels@[i] == b.pixels@[i] by {
        lemma_mod_bound(i, w);
        lemma_multiply_divide_lt(i, w, h);
        vstd::arithmetic::div_mod::lemma_div_pos_is_pos(i, w);
        lemma_fundamental_div_mod(i, w);
        lemma_mul_is_commutative(w, i / w);
        assert((i / w) * w + i % w == i);
        assert(a.color_at(i % w, i / w) == a.pixels@[i]);
        assert(b.color_at(i % w, i / w) == b.pixels@[i]);
    }
    assert(a.pixels@ =~= b.pixels@);
}

} // verus!
