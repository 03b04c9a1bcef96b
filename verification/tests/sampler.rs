use termfractal::binary64::Binary64;
use termfractal::error::ConfigError;
use termfractal::sampler::{viewport_to_grid_range, GridRange, ScaledBounds, ViewportConfig};

fn bound(value: f64) -> Binary64 {
    Binary64::from_bits(value.to_bits())
}

fn scaled(real_start: f64, real_end: f64, complex_start: f64, complex_end: f64, resolution: i64) -> ScaledBounds {
    ScaledBounds {
        real_start: bound(real_start * resolution as f64),
        real_end: bound(real_end * resolution as f64),
        complex_start: bound(complex_start * resolution as f64),
        complex_end: bound(complex_end * resolution as f64),
    }
}

#[test]
fn viewport_is_accepted_when_ordered() {
    let checked = ViewportConfig::new(bound(-2.0), bound(1.0), bound(-1.0), bound(1.0), 4);
    assert_eq!(
        checked,
        Ok(ViewportConfig {
            real_start: bound(-2.0),
            real_end: bound(1.0),
            complex_start: bound(-1.0),
            complex_end: bound(1.0),
            resolution: 4,
        })
    );
}

#[test]
fn viewport_may_be_a_single_point() {
    assert!(ViewportConfig::new(bound(0.0), bound(0.0), bound(0.0), bound(-0.0), 1).is_ok());
}

#[test]
fn viewport_rejects_resolution_zero() {
    assert_eq!(
        ViewportConfig::new(bound(-2.0), bound(1.0), bound(-1.0), bound(1.0), 0),
        Err(ConfigError::ResolutionNotPositive)
    );
}

#[test]
fn viewport_rejects_negative_resolution() {
    assert_eq!(
        ViewportConfig::new(bound(-2.0), bound(1.0), bound(-1.0), bound(1.0), -3),
        Err(ConfigError::ResolutionNotPositive)
    );
    assert_eq!(
        ViewportConfig::new(bound(1.0), bound(-1.0), bound(1.0), bound(-1.0), i64::MIN),
        Err(ConfigError::ResolutionNotPositive)
    );
}

#[test]
fn viewport_rejects_inverted_real_axis() {
    assert_eq!(
        ViewportConfig::new(bound(1.0), bound(-2.0), bound(-1.0), bound(1.0), 4),
        Err(ConfigError::RealBoundsInverted)
    );
    assert_eq!(
        ViewportConfig::new(bound(1.0), bound(-2.0), bound(1.0), bound(-1.0), 4),
        Err(ConfigError::RealBoundsInverted)
    );
}

#[test]
fn viewport_rejects_inverted_complex_axis() {
    assert_eq!(
        ViewportConfig::new(bound(-2.0), bound(1.0), bound(1.0), bound(0.999), 4),
        Err(ConfigError::ComplexBoundsInverted)
    );
}

#[test]
fn viewport_rejects_nan_bounds() {
    assert_eq!(
        ViewportConfig::new(bound(f64::NAN), bound(1.0), bound(-1.0), bound(1.0), 4),
        Err(ConfigError::RealBoundsInverted)
    );
    assert_eq!(
        ViewportConfig::new(bound(-2.0), bound(1.0), bound(-1.0), bound(f64::NAN), 4),
        Err(ConfigError::ComplexBoundsInverted)
    );
}

#[test]
fn default_viewport_is_the_origin_at_resolution_one() {
    let viewport = ViewportConfig::default();
    assert_eq!(viewport.real_start, bound(0.0));
    assert_eq!(viewport.real_end, bound(0.0));
    assert_eq!(viewport.complex_start, bound(0.0));
    assert_eq!(viewport.complex_end, bound(0.0));
    assert_eq!(viewport.resolution, 1);
    assert_eq!(
        ViewportConfig::new(
            viewport.real_start,
            viewport.real_end,
            viewport.complex_start,
            viewport.complex_end,
            viewport.resolution
        ),
        Ok(viewport)
    );
}

#[test]
fn grid_range_of_the_mandelbrot_viewport() {
    let range = viewport_to_grid_range(scaled(-2.0, 1.0, -1.0, 1.0, 4));
    assert_eq!(range, GridRange { col_start: -8, col_end: 4, row_start: -4, row_end: 4 });
}

#[test]
fn grid_range_truncates_toward_zero() {
    let range = viewport_to_grid_range(scaled(-2.3, 2.37, -1.0, 1.0, 10));
    assert_eq!(range.col_start, -23);
    assert_eq!(range.col_end, 23);
}

#[test]
fn grid_range_takes_rows_from_the_negated_bounds() {
    let range = viewport_to_grid_range(scaled(0.0, 0.0, -0.75, 2.55, 10));
    assert_eq!(range.row_start, -25);
    assert_eq!(range.row_end, 7);
}

#[test]
fn grid_range_agrees_with_the_machine() {
    let bounds = [-1e12, -2147483648.5, -3.99, -2.3, -0.3, -0.0, 0.0, 0.29, 0.3, 1.15, 4.35, 8.2, 1e10, f64::INFINITY];
    for resolution in [1i64, 3, 10, 100, 1000] {
        for low in bounds {
            for high in bounds {
                let range = viewport_to_grid_range(scaled(low, high, low, high, resolution));
                assert_eq!(range.col_start, (low * resolution as f64) as i32);
                assert_eq!(range.col_end, (high * resolution as f64) as i32);
                assert_eq!(range.row_start, (-high * resolution as f64) as i32);
                assert_eq!(range.row_end, (-low * resolution as f64) as i32);
            }
        }
    }
}

#[test]
fn grid_range_saturates_on_the_negated_side() {
    let range = viewport_to_grid_range(scaled(0.0, 0.0, -2147483648.0, 2147483648.0, 1));
    assert_eq!(range.row_start, i32::MIN);
    assert_eq!(range.row_end, i32::MAX);
}

#[test]
fn ordered_bounds_give_ordered_ranges() {
    let bounds = [-7.7, -2.3, -0.4, 0.0, 0.3, 0.31, 5.5];
    for (index, low) in bounds.iter().enumerate() {
        for high in &bounds[index..] {
            let range = viewport_to_grid_range(scaled(*low, *high, *low, *high, 10));
            assert!(range.col_start <= range.col_end);
            assert!(range.row_start <= range.row_end);
        }
    }
}
