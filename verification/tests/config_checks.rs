//! Configuration validation: each rejection, and acceptance.

use mandelbrot::fixed::SCALE;
use mandelbrot::plane::{Viewport, RenderConfig, ConfigError, COORD_LIMIT};

fn unit_viewport() -> Viewport {
    Viewport { re_min: -2 * SCALE, re_max: SCALE, im_min: -SCALE, im_max: SCALE }
}

#[test]
fn accepts_ordinary_configuration() {
    let cfg = RenderConfig::new(unit_viewport(), 640, 480, 100).unwrap();
    assert_eq!(cfg.width, 640);
    assert_eq!(cfg.height, 480);
    assert_eq!(cfg.max_iterations, 100);
    assert_eq!(cfg.viewport.re_min, -2 * SCALE);
}

#[test]
fn rejects_zero_width() {
    assert_eq!(
        RenderConfig::new(unit_viewport(), 0, 480, 100),
        Err(ConfigError::ZeroDimensions)
    );
}

#[test]
fn rejects_zero_height() {
    assert_eq!(
        RenderConfig::new(unit_viewport(), 640, 0, 100),
        Err(ConfigError::ZeroDimensions)
    );
}

#[test]
fn rejects_degenerate_viewport() {
    let vp = Viewport { re_min: SCALE, re_max: SCALE, im_min: -SCALE, im_max: SCALE };
    assert_eq!(
        RenderConfig::new(vp, 640, 480, 100),
        Err(ConfigError::DegenerateViewport)
    );
    let vp = Viewport { re_min: -SCALE, re_max: SCALE, im_min: SCALE, im_max: -SCALE };
    assert_eq!(
        RenderConfig::new(vp, 640, 480, 100),
        Err(ConfigError::DegenerateViewport)
    );
}

#[test]
fn rejects_viewport_out_of_range() {
    let vp = Viewport {
        re_min: -COORD_LIMIT - 1,
        re_max: SCALE,
        im_min: -SCALE,
        im_max: SCALE,
    };
    assert_eq!(
        RenderConfig::new(vp, 640, 480, 100),
        Err(ConfigError::ViewportOutOfRange)
    );
}
