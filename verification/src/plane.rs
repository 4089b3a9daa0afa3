//! The viewport, the render configuration, and the map from pixel
//! coordinates to samples of the complex plane.
//!
//! The raster samples the viewport left-edge inclusive: pixel `(0, 0)`
//! lands exactly on `(re_min, im_min)`, and every sample stays strictly
//! below `re_max` (resp. `im_max`).

use vstd::prelude::*;
use vstd::arithmetic::div_mod::{lemma_fundamental_div_mod, lemma_div_is_ordered};
use vstd::arithmetic::mul::{lemma_mul_inequality, lemma_mul_is_commutative};
use crate::fixed::{SCALE, iabs};

verus! {

/// Largest magnitude a viewport bound may have: 64 units of the plane.
/// Keeps every intermediate of the render inside `i64`.
pub const COORD_LIMIT: i64 = 64 * SCALE;

/// A fixed-point point of the complex plane.
#[derive(Clone, Copy, PartialEq, Eq, Structural, Debug)]
pub struct ComplexSample {
    pub re: i64,
    pub im: i64,
}

/// The rectangle of the complex plane mapped onto the raster,
/// in fixed-point coordinates.
#[derive(Clone, Copy, PartialEq, Eq, Structural, Debug)]
pub struct Viewport {
    pub re_min: i64,
    pub re_max: i64,
    pub im_min: i64,
    pub im_max: i64,
}

impl Viewport {
    /// A viewport is well formed when it is non-degenerate and its bounds
    /// stay within `COORD_LIMIT`.
    pub open spec fn wf(self) -> bool {
        &&& self.re_min < self.re_max
        &&& self.im_min < self.im_max
        &&& -COORD_LIMIT <= self.re_min
        &&& self.re_max <= COORD_LIMIT
        &&& -COORD_LIMIT <= self.im_min
        &&& self.im_max <= COORD_LIMIT
    }
}

/// Why a configuration was rejected.
#[derive(Clone, Copy, PartialEq, Eq, Structural, Debug)]
pub enum ConfigError {
    /// The raster has zero width or zero height.
    ZeroDimensions,
    /// A viewport bound lies outside `[-COORD_LIMIT, COORD_LIMIT]`.
    ViewportOutOfRange,
    /// The viewport spans no area: a minimum is not below its maximum.
    DegenerateViewport,
    /// The pixel buffer would not be addressable.
    RasterTooLarge,
}

/// Everything one render needs: viewport, raster size, iteration budget.
#[derive(Clone, Copy, PartialEq, Eq, Structural, Debug)]
pub struct RenderConfig {
    pub viewport: Viewport,
    pub width: u32,
    pub height: u32,
    pub max_iterations: u32,
}

/// The decision `RenderConfig::new` makes, with the reason of rejection.
pub open spec fn config_check(vp: Viewport, width: u32, height: u32) -> Result<(), ConfigError> {
    if width == 0 || height == 0 {
        Err(ConfigError::ZeroDimensions)
    } else if !(-COORD_LIMIT <= vp.re_min && vp.re_max <= COORD_LIMIT
            && -COORD_LIMIT <= vp.im_min && vp.im_max <= COORD_LIMIT) {
        Err(ConfigError::ViewportOutOfRange)
    } else if !(vp.re_min < vp.re_max && vp.im_min < vp.im_max) {
        Err(ConfigError::DegenerateViewport)
    } else if (width as int) * (height as int) > usize::MAX as int {
        Err(ConfigError::RasterTooLarge)
    } else {
        Ok(())
    }
}

impl RenderConfig {
    /// A configuration is well formed when its viewport is and the raster
    /// is non-empty and addressable.
    pub open spec fn wf(self) -> bool {
        &&& self.viewport.wf()
        &&& self.width >= 1
        &&& self.height >= 1
        &&& (self.width as int) * (self.height as int) <= usize::MAX as int
    }

    /// Validates and builds a configuration. Succeeds exactly on the
    /// inputs that `config_check` accepts.
    pub fn new(viewport: Viewport, width: u32, height: u32, max_iterations: u32)
        -> (r: Result<RenderConfig, ConfigError>)
        ensures
            r is Ok <==> config_check(viewport, width, height) is Ok,
            r is Ok ==> r->Ok_0 == (RenderConfig { viewport, width, height, max_iterations })
                && r->Ok_0.wf(),
            r is Err ==> r->Err_0 == config_check(viewport, width, height)->Err_0,
    {
        if width == 0 || height == 0 {
            return Err(ConfigError::ZeroDimensions);
        }
        if !(-COORD_LIMIT <= viewport.re_min && viewport.re_max <= COORD_LIMIT
                && -COORD_LIMIT <= viewport.im_min && viewport.im_max <= COORD_LIMIT) {
            return Err(ConfigError::ViewportOutOfRange);
        }
        if !(viewport.re_min < viewport.re_max && viewport.im_min < viewport.im_max) {
            return Err(ConfigError::DegenerateViewport);
        }
        proof {
            vstd::arithmetic::mul::lemma_mul_upper_bound(
                width as int, u32::MAX as int, height as int, u32::MAX as int);
        }
        if (width as u64) * (height as u64) > (usize::MAX as u64) {
            return Err(ConfigError::RasterTooLarge);
        }
        Ok(RenderConfig { viewport, width, height, max_iterations })
    }
}

/// The real step between neighboring columns: the viewport's real span
/// divided (rounded down) by the raster width.
pub open spec fn step_re(cfg: RenderConfig) -> int {
    (cfg.viewport.re_max - cfg.viewport.re_min) / (cfg.width as int)
}

/// The imaginary step between neighboring rows.
pub open spec fn step_im(cfg: RenderConfig) -> int {
    (cfg.viewport.im_max - cfg.viewport.im_min) / (cfg.height as int)
}

/// The real coordinate sampled by column `x`.
pub open spec fn sample_re(cfg: RenderConfig, x: int) -> int {
    cfg.viewport.re_min + x * step_re(cfg)
}

/// The imaginary coordinate sampled by row `y`.
pub open spec fn sample_im(cfg: RenderConfig, y: int) -> int {
    cfg.viewport.im_min + y * step_im(cfg)
}

/// A nonnegative step times a column count never leaves the span:
/// `x * (span / w) <= span` for `0 <= x <= w`.
proof fn lemma_step_total(span: int, w: int, x: int)
    requires
        0 < span,
        0 < w,
        0 <= x <= w,
    ensures
        0 <= span / w,
        0 <= x * (span / w) <= span,
{
    lemma_div_is_ordered(0, span, w);
    lemma_fundamental_div_mod(span, w);
    vstd::arithmetic::div_mod::lemma_mod_bound(span, w);
    lemma_mul_inequality(x, w, span / w);
    vstd::arithmetic::mul::lemma_mul_nonnegative(x, span / w);
    lemma_mul_is_commutative(w, span / w);
}

/// Pixel `(0, 0)` samples the viewport's lower corner exactly.
pub proof fn lemma_map_origin(cfg: RenderConfig)
    ensures
        sample_re(cfg, 0) == cfg.viewport.re_min,
        sample_im(cfg, 0) == cfg.viewport.im_min,
{
}

/// Every in-range pixel samples inside the viewport: at or above the
/// minimum, strictly below the maximum (left-edge inclusive sampling).
pub proof fn lemma_samples_in_viewport(cfg: RenderConfig, x: int, y: int)
    requires
        cfg.wf(),
        0 <= x < cfg.width,
        0 <= y < cfg.height,
    ensures
        cfg.viewport.re_min <= sample_re(cfg, x) < cfg.viewport.re_max,
        cfg.viewport.im_min <= sample_im(cfg, y) < cfg.viewport.im_max,
        iabs(sample_re(cfg, x)) <= COORD_LIMIT,
        iabs(sample_im(cfg, y)) <= COORD_LIMIT,
{
    let sre = cfg.viewport.re_max - cfg.viewport.re_min;
    let sim = cfg.viewport.im_max - cfg.viewport.im_min;
    let w = cfg.width as int;
    let h = cfg.height as int;
    let stx = sre / w;
    let sty = sim / h;
    lemma_step_total(sre, w, x);
    lemma_step_total(sre, w, x + 1);
    lemma_step_total(sim, h, y);
    lemma_step_total(sim, h, y + 1);
    // One more whole step still fits the span, so with a positive step the
    // sample stays strictly below the maximum; with a zero step the strict
    // bound is the span itself.
    assert((x + 1) * stx == x * stx + stx) by (nonlinear_arith);
    assert((y + 1) * sty == y * sty + sty) by (nonlinear_arith);
    if stx == 0 {
        assert(x * stx == 0) by (nonlinear_arith)
            requires stx == 0;
    }
    if sty == 0 {
        assert(y * sty == 0) by (nonlinear_arith)
            requires sty == 0;
    }
}

/// Maps pixel coordinates to the complex plane. The two scale factors are
/// computed once, when the mapper is built, and reused for every pixel.
#[derive(Clone, Copy, PartialEq, Eq, Structural, Debug)]
pub struct PlaneMapper {
    pub re_min: i64,
    pub im_min: i64,
    pub dx: i64,
    pub dy: i64,
    pub width: u32,
    pub height: u32,
}

impl PlaneMapper {
    /// Bounds that make every mapped sample stay inside `i64` and inside
    /// `[-COORD_LIMIT, COORD_LIMIT]`.
    pub open spec fn wf(self) -> bool {
        &&& self.width >= 1
        &&& self.height >= 1
        &&& 0 <= self.dx
        &&& 0 <= self.dy
        &&& -COORD_LIMIT <= self.re_min
        &&& self.re_min + (self.width as int) * (self.dx as int) <= COORD_LIMIT
        &&& -COORD_LIMIT <= self.im_min
        &&& self.im_min + (self.height as int) * (self.dy as int) <= COORD_LIMIT
    }

    /// The mapper carries exactly the corner and steps of `cfg`.
    pub open spec fn wf_for(self, cfg: RenderConfig) -> bool {
        &&& self.wf()
        &&& self.re_min == cfg.viewport.re_min
        &&& self.im_min == cfg.viewport.im_min
        &&& self.dx == step_re(cfg)
        &&& self.dy == step_im(cfg)
        &&& self.width == cfg.width
        &&& self.height == cfg.height
    }

    /// Builds the mapper for one render, precomputing both scale factors.
    pub fn new(cfg: &RenderConfig) -> (m: PlaneMapper)
        requires
            cfg.wf(),
        ensures
            m.wf_for(*cfg),
    {
        let sre: u64 = (cfg.viewport.re_max - cfg.viewport.re_min) as u64;
        let sim: u64 = (cfg.viewport.im_max - cfg.viewport.im_min) as u64;
        let dx: i64 = (sre / (cfg.width as u64)) as i64;
        let dy: i64 = (sim / (cfg.height as u64)) as i64;
        proof {
            lemma_step_total(sre as int, cfg.width as int, cfg.width as int);
            lemma_step_total(sim as int, cfg.height as int, cfg.height as int);
        }
        PlaneMapper {
            re_min: cfg.viewport.re_min,
            im_min: cfg.viewport.im_min,
            dx,
            dy,
            width: cfg.width,
            height: cfg.height,
        }
    }

    /// Maps pixel `(x, y)` to its complex sample:
    /// `re = re_min + x * dx`, `im = im_min + y * dy`.
    pub fn map(&self, x: u32, y: u32) -> (s: ComplexSample)
        requires
            self.wf(),
            x < self.width,
            y < self.height,
        ensures
            s.re as int == self.re_min + (x as int) * (self.dx as int),
            s.im as int == self.im_min + (y as int) * (self.dy as int),
            iabs(s.re as int) <= COORD_LIMIT,
            iabs(s.im as int) <= COORD_LIMIT,
    {
        proof {
            lemma_mul_inequality(x as int, self.width as int, self.dx as int);
            lemma_mul_inequality(y as int, self.height as int, self.dy as int);
            vstd::arithmetic::mul::lemma_mul_nonnegative(x as int, self.dx as int);
            vstd::arithmetic::mul::lemma_mul_nonnegative(y as int, self.dy as int);
        }
        let px: i128 = (x as i128) * (self.dx as i128);
        let py: i128 = (y as i128) * (self.dy as i128);
        let re: i64 = self.re_min + (px as i64);
        let im: i64 = self.im_min + (py as i64);
        ComplexSample { re, im }
    }
}

} // verus!
