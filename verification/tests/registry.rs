use termfractal::error::ConfigError;
use termfractal::registry::{fractal_matcher, names, EscapeClause, Fractal, Transition};

fn expect(name: &str, function: Transition, radius: u32) {
    let found = fractal_matcher(name.to_string());
    assert_eq!(found, Ok(Fractal { function, clause: EscapeClause { radius } }));
}

#[test]
fn mandelbrot_is_the_square_within_three() {
    expect("mandelbrot", Transition::Square, 3);
}

#[test]
fn mandelbrot_cubed_is_the_cube_within_three() {
    expect("mandelbrot-cubed", Transition::Cube, 3);
}

#[test]
fn julia_is_the_cosine_within_three() {
    expect("julia", Transition::Cosine, 3);
}

#[test]
fn bat_is_the_inverse_hyperbolic_tangent_within_three() {
    expect("bat", Transition::InverseHyperbolicTangent, 3);
}

#[test]
fn batstatic_is_the_cotangent_within_one() {
    expect("batstatic", Transition::Cotangent, 1);
}

#[test]
fn spiral_is_the_logarithm_within_one() {
    expect("spiral", Transition::Logarithm, 1);
}

#[test]
fn crab_is_the_self_power_within_one() {
    expect("crab", Transition::SelfPower, 1);
}

#[test]
fn unknown_names_are_errors() {
    for name in ["", "Mandelbrot", "mandelbrot ", "mandelbrot-squared", "bats", "ba", "julia\n", "crab2"] {
        assert_eq!(fractal_matcher(name.to_string()), Err(ConfigError::UnknownFractal));
    }
}

#[test]
fn unnamed_fractal_is_the_cosine_of_the_root_within_one() {
    assert_eq!(
        Fractal::unnamed(),
        Fractal { function: Transition::CosineOfRoot, clause: EscapeClause { radius: 1 } }
    );
}

#[test]
fn new_builds_from_transition_and_radius() {
    let fractal = Fractal::new(Transition::Cube, 7);
    assert_eq!(fractal.function, Transition::Cube);
    assert_eq!(fractal.clause.radius, 7);
}

#[test]
fn names_lists_the_table_in_order() {
    assert_eq!(names(), vec!["mandelbrot", "mandelbrot-cubed", "julia", "bat", "batstatic", "spiral", "crab"]);
}

#[test]
fn every_listed_name_is_found() {
    for name in names() {
        assert!(fractal_matcher(name.to_string()).is_ok(), "{}", name);
    }
}
