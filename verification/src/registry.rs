//! The table of named fractals.
use vstd::prelude::*;
use vstd::string::*;
use crate::error::ConfigError;

verus! {

/// The update rule `z <- f(z, c)` of a fractal family.
#[derive(Clone, Copy, Debug, PartialEq, Eq, Structural)]
pub enum Transition {
    /// `z^2 + c`
    Square,
    /// `z^3 + c`
    Cube,
    /// `cos(z)`
    Cosine,
    /// `artanh(1/z + 1/c)`
    InverseHyperbolicTangent,
    /// `cot(1 - z^2)`
    Cotangent,
    /// `ln(1 + z^2)`
    Logarithm,
    /// `z^(1 - z)`
    SelfPower,
    /// `cos(sqrt(1 + z^2))`
    CosineOfRoot,
}

/// The boundedness test on the last iterate: `|z| <= radius`.
#[derive(Clone, Copy, Debug, PartialEq, Eq, Structural)]
pub struct EscapeClause {
    pub radius: u32,
}

/// A fractal: its transition and the clause that classifies the last iterate.
#[derive(Clone, Copy, Debug, PartialEq, Eq, Structural)]
pub struct Fractal {
    pub function: Transition,
    pub clause: EscapeClause,
}

/// The fractal made of `function` and the clause `|z| <= radius`.
pub open spec fn entry(function: Transition, radius: u32) -> Fractal {
    Fractal { function, clause: EscapeClause { radius } }
}

/// The registry as a table: the fractal that `name` selects, if any.
pub open spec fn registered(name: Seq<char>) -> Option<Fractal> {
    if name == "mandelbrot"@ {
        Some(entry(Transition::Square, 3))
    } else if name == "mandelbrot-cubed"@ {
        Some(entry(Transition::Cube, 3))
    } else if name == "julia"@ {
        Some(entry(Transition::Cosine, 3))
    } else if name == "bat"@ {
        Some(entry(Transition::InverseHyperbolicTangent, 3))
    } else if name == "batstatic"@ {
        Some(entry(Transition::Cotangent, 1))
    } else if name == "spiral"@ {
        Some(entry(Transition::Logarithm, 1))
    } else if name == "crab"@ {
        Some(entry(Transition::SelfPower, 1))
    } else {
        None
    }
}

/// The recognized names, in the order of the table.
pub open spec fn recognized() -> Seq<Seq<char>> {
    seq![
        "mandelbrot"@,
        "mandelbrot-cubed"@,
        "julia"@,
        "bat"@,
        "batstatic"@,
        "spiral"@,
        "crab"@,
    ]
}

/// The fractal that is drawn when no name is given: `cos(sqrt(1 + z^2))`
/// within radius 1.
pub open spec fn unnamed() -> Fractal {
    entry(Transition::CosineOfRoot, 1)
}

fn is_name(name: &String, literal: &str) -> (same: bool)
    ensures
        same == (name@ == literal@),
{
    let other = String::from_str(literal);
    *name == other
}

impl Fractal {
    /// Builds the fractal made of `function` and the clause `|z| <= radius`.
    pub fn new(function: Transition, radius: u32) -> (fractal: Fractal)
        ensures
            fractal == entry(function, radius),
    {
        Fractal { function, clause: EscapeClause { radius } }
    }

    /// The fractal drawn when no name is given.
    pub fn unnamed() -> (fractal: Fractal)
        ensures
            fractal == unnamed(),
    {
        Fractal::new(Transition::CosineOfRoot, 1)
    }
}

/// Looks a fractal up by name. A name outside the table is an error: no
/// formula is substituted for it.
pub fn fractal_matcher(fractal: String) -> (found: Result<Fractal, ConfigError>)
    ensures
        found == match registered(fractal@) {
            Some(definition) => Ok::<Fractal, ConfigError>(definition),
            None => Err::<Fractal, ConfigError>(ConfigError::UnknownFractal),
        },
{
    if is_name(&fractal, "mandelbrot") {
        Ok(Fractal::new(Transition::Square, 3))
    } else if is_name(&fractal, "mandelbrot-cubed") {
        Ok(Fractal::new(Transition::Cube, 3))
    } else if is_name(&fractal, "julia") {
        Ok(Fractal::new(Transition::Cosine, 3))
    } else if is_name(&fractal, "bat") {
        Ok(Fractal::new(Transition::InverseHyperbolicTangent, 3))
    } else if is_name(&fractal, "batstatic") {
        Ok(Fractal::new(Transition::Cotangent, 1))
    } else if is_name(&fractal, "spiral") {
        Ok(Fractal::new(Transition::Logarithm, 1))
    } else if is_name(&fractal, "crab") {
        Ok(Fractal::new(Transition::SelfPower, 1))
    } else {
        Err(ConfigError::UnknownFractal)
    }
}

/// Lists the recognized names, in the order of the table.
pub fn names() -> (list: Vec<&'static str>)
    ensures
        list@.len() == recognized().len(),
        forall|i: int| 0 <= i < list@.len() ==> (#[trigger] list@[i])@ == recognized()[i],
{
    vec!["mandelbrot", "mandelbrot-cubed", "julia", "bat", "batstatic", "spiral", "crab"]
}

/// The table has a row for a name exactly when the name is listed.
pub proof fn lemma_registered_iff_recognized(name: Seq<char>)
    ensures
        registered(name) is Some <==> recognized().contains(name),
{
    let list = recognized();
    if registered(name) is Some {
        let row: int = if name == list[0] {
            0
        } else if name == list[1] {
            1
        } else if name == list[2] {
            2
        } else if name == list[3] {
            3
        } else if name == list[4] {
            4
        } else if name == list[5] {
            5
        } else {
            6
        };
        assert(list[row] == name);
    }
}

/// Every recognized name selects its own row of the table: no earlier row
/// shadows a later one.
pub proof fn lemma_registry_complete()
    ensures
        registered("mandelbrot"@) == Some(entry(Transition::Square, 3)),
        registered("mandelbrot-cubed"@) == Some(entry(Transition::Cube, 3)),
        registered("julia"@) == Some(entry(Transition::Cosine, 3)),
        registered("bat"@) == Some(entry(Transition::InverseHyperbolicTangent, 3)),
        registered("batstatic"@) == Some(entry(Transition::Cotangent, 1)),
        registered("spiral"@) == Some(entry(Transition::Logarithm, 1)),
        registered("crab"@) == Some(entry(Transition::SelfPower, 1)),
{
    reveal_strlit("mandelbrot");
    reveal_strlit("mandelbrot-cubed");
    reveal_strlit("julia");
    reveal_strlit("bat");
    reveal_strlit("batstatic");
    reveal_strlit("spiral");
    reveal_strlit("crab");
    assert("mandelbrot"@.len() == 10);
    assert("mandelbrot-cubed"@.len() == 16);
    assert("julia"@.len() == 5);
    assert("bat"@.len() == 3);
    assert("batstatic"@.len() == 9);
    assert("spiral"@.len() == 6);
    assert("crab"@.len() == 4);
}

} // verus!
